//! The tags that a file has by implication.
//!
//! A file's explicit tags are closed under the implication rules: whatever a
//! rule implies of a tag that the file has, the file has too. Rules may form
//! chains and cycles.

use crate::entities::{
    applies, pair_of, same_value, target_of, FileId, FileTag, Implication, Pair, TagId, ValueId,
};
use vstd::prelude::*;

verus! {

/// `m` is the first place in `tags` where `p` stands.
pub open spec fn is_first(tags: Seq<FileTag>, m: int, p: Pair) -> bool {
    &&& 0 <= m < tags.len()
    &&& pair_of(tags[m]) == p
    &&& forall|k: int| 0 <= k < m ==> pair_of(#[trigger] tags[k]) != p
}

/// `p` stands somewhere in `tags`.
pub open spec fn present(tags: Seq<FileTag>, p: Pair) -> bool {
    exists|m: int| 0 <= m < tags.len() && pair_of(#[trigger] tags[m]) == p
}

/// `p` stands in `tags`, and where it stands first it is flagged implicit.
pub open spec fn marked(tags: Seq<FileTag>, p: Pair) -> bool {
    exists|m: int| #[trigger] is_first(tags, m, p) && tags[m].implicit
}

/// `chain` lists rules of which the first applies to `from` and each other
/// one applies to what the rule before it implies.
pub open spec fn is_chain(rules: Seq<Implication>, from: Pair, chain: Seq<int>) -> bool {
    &&& chain.len() > 0
    &&& forall|k: int| 0 <= k < chain.len() ==> 0 <= #[trigger] chain[k] < rules.len()
    &&& applies(rules[chain[0]], from)
    &&& forall|k: int|
        1 <= k < chain.len() ==> applies(rules[#[trigger] chain[k]], target_of(rules[chain[k - 1]]))
}

/// A chain of one or more rules leads from `from` to `to`.
pub open spec fn leads_to(rules: Seq<Implication>, from: Pair, to: Pair) -> bool {
    exists|chain: Seq<int>| #[trigger]
        is_chain(rules, from, chain) && target_of(rules[chain.last()]) == to
}

/// A chain of rules leads from one of the tags in `explicit` to `p`.
pub open spec fn implied(rules: Seq<Implication>, explicit: Seq<FileTag>, p: Pair) -> bool {
    exists|i: int|
        0 <= i < explicit.len() && leads_to(rules, pair_of(#[trigger] explicit[i]), p)
}

/// `p` is one of the tags in `explicit`, or implied by them.
spec fn derived(rules: Seq<Implication>, explicit: Seq<FileTag>, p: Pair) -> bool {
    present(explicit, p) || implied(rules, explicit, p)
}

/// Every rule that applies to `p` has what it implies marked in `tags`.
spec fn satisfied(rules: Seq<Implication>, tags: Seq<FileTag>, p: Pair) -> bool {
    forall|j: int|
        0 <= j < rules.len() && applies(#[trigger] rules[j], p) ==> marked(
            tags,
            target_of(rules[j]),
        )
}

/// Every tag in `tags` belongs to the file `f`.
pub open spec fn all_of_file(tags: Seq<FileTag>, f: FileId) -> bool {
    forall|i: int| 0 <= i < tags.len() ==> (#[trigger] tags[i]).file_id == f
}

/// How many of the first `n` rules imply something that `tags` lacks.
spec fn unmet(rules: Seq<Implication>, tags: Seq<FileTag>, n: nat) -> nat
    decreases n,
{
    if n == 0 {
        0
    } else {
        unmet(rules, tags, (n - 1) as nat) + if present(tags, target_of(rules[n - 1])) {
            0nat
        } else {
            1nat
        }
    }
}

/// A rule that applies to a derived tag implies an implied tag.
proof fn lemma_rule_extends(
    rules: Seq<Implication>,
    explicit: Seq<FileTag>,
    p: Pair,
    j: int,
)
    requires
        derived(rules, explicit, p),
        0 <= j < rules.len(),
        applies(rules[j], p),
    ensures
        implied(rules, explicit, target_of(rules[j])),
{
    if present(explicit, p) {
        let i = choose|i: int| 0 <= i < explicit.len() && pair_of(#[trigger] explicit[i]) == p;
        let chain = seq![j];
        assert(is_chain(rules, p, chain));
        assert(leads_to(rules, pair_of(explicit[i]), target_of(rules[j])));
    } else {
        let i = choose|i: int|
            0 <= i < explicit.len() && leads_to(rules, pair_of(#[trigger] explicit[i]), p);
        let from = pair_of(explicit[i]);
        let before = choose|chain: Seq<int>| #[trigger]
            is_chain(rules, from, chain) && target_of(rules[chain.last()]) == p;
        let chain = before.push(j);
        assert forall|k: int| 1 <= k < chain.len() implies applies(
            rules[#[trigger] chain[k]],
            target_of(rules[chain[k - 1]]),
        ) by {
            if k < before.len() {
                assert(chain[k] == before[k]);
                assert(chain[k - 1] == before[k - 1]);
            } else {
                assert(chain[k - 1] == before.last());
            }
        }
        assert(chain[0] == before[0]);
        assert(is_chain(rules, from, chain));
        assert(chain.last() == j);
        assert(leads_to(rules, from, target_of(rules[j])));
    }
}

/// Where every tag in `tags` is satisfied, whatever a chain of rules leads to
/// from one of them is marked.
proof fn lemma_closed_holds_chains(
    rules: Seq<Implication>,
    tags: Seq<FileTag>,
    from: Pair,
    chain: Seq<int>,
)
    requires
        forall|i: int| 0 <= i < tags.len() ==> satisfied(rules, tags, pair_of(#[trigger] tags[i])),
        present(tags, from),
        is_chain(rules, from, chain),
    ensures
        marked(tags, target_of(rules[chain.last()])),
    decreases chain.len(),
{
    if chain.len() == 1 {
        let m = choose|m: int| 0 <= m < tags.len() && pair_of(#[trigger] tags[m]) == from;
        assert(satisfied(rules, tags, pair_of(tags[m])));
        assert(applies(rules[chain[0]], from));
    } else {
        let before = chain.drop_last();
        assert forall|k: int| 1 <= k < before.len() implies applies(
            rules[#[trigger] before[k]],
            target_of(rules[before[k - 1]]),
        ) by {
            assert(before[k] == chain[k]);
            assert(before[k - 1] == chain[k - 1]);
        }
        assert(before[0] == chain[0]);
        assert forall|k: int| 0 <= k < before.len() implies 0 <= #[trigger] before[k]
            < rules.len() by {
            assert(before[k] == chain[k]);
        }
        assert(is_chain(rules, from, before));
        lemma_closed_holds_chains(rules, tags, from, before);
        let mid = target_of(rules[before.last()]);
        let m = choose|m: int| #[trigger] is_first(tags, m, mid) && tags[m].implicit;
        assert(satisfied(rules, tags, pair_of(tags[m])));
        let last = chain.len() - 1;
        assert(before.last() == chain[last - 1]);
        assert(applies(rules[chain[last]], target_of(rules[chain[last - 1]])));
    }
}

/// Tags that hold more pairs lack no more of what the rules imply.
proof fn lemma_unmet_shrinks(
    rules: Seq<Implication>,
    before: Seq<FileTag>,
    after: Seq<FileTag>,
    n: nat,
)
    requires
        n <= rules.len(),
        forall|p: Pair| present(before, p) ==> #[trigger] present(after, p),
    ensures
        unmet(rules, after, n) <= unmet(rules, before, n),
        forall|j: int|
            0 <= j < n && !present(before, target_of(#[trigger] rules[j])) && present(
                after,
                target_of(rules[j]),
            ) ==> unmet(rules, after, n) < unmet(rules, before, n),
    decreases n,
{
    if n > 0 {
        lemma_unmet_shrinks(rules, before, after, (n - 1) as nat);
    }
}

/// The first place in `file_tags` where the tag stands with the value.
pub fn find_file_tag_for_pair(
    file_tags: &Vec<FileTag>,
    tag_id: TagId,
    value_id: Option<ValueId>,
) -> (r: Option<usize>)
    ensures
        match r {
            Some(m) => is_first(file_tags@, m as int, (tag_id, value_id)),
            None => !present(file_tags@, (tag_id, value_id)),
        },
{
    let mut i: usize = 0;
    while i < file_tags.len()
        invariant
            i <= file_tags.len(),
            forall|k: int| 0 <= k < i ==> pair_of(#[trigger] file_tags@[k]) != (tag_id, value_id),
        decreases file_tags.len() - i,
    {
        if file_tags[i].tag_id.0 == tag_id.0 && same_value(file_tags[i].value_id, value_id) {
            return Some(i);
        }
        i += 1;
    }
    None
}

/// How the tags `all` stand to the explicit tags that they grew from: the
/// explicit tags come first, unchanged but for an implicit flag that was
/// raised where the tag is implied and stands there first; behind them
/// stand implied tags only, each flagged implicit and not explicit, none of
/// them twice and none of them an explicit tag.
pub open spec fn grown_from(rules: Seq<Implication>, explicit: Seq<FileTag>, all: Seq<FileTag>) -> bool {
    &&& explicit.len() <= all.len()
    &&& forall|i: int|
        0 <= i < explicit.len() ==> {
            let a = #[trigger] all[i];
            let e = explicit[i];
            &&& a.file_id == e.file_id
            &&& a.tag_id == e.tag_id
            &&& a.value_id == e.value_id
            &&& a.explicit == e.explicit
            &&& e.implicit ==> a.implicit
            &&& a.implicit && !e.implicit ==> implied(rules, explicit, pair_of(a)) && is_first(
                all,
                i,
                pair_of(a),
            )
        }
    &&& forall|i: int|
        explicit.len() <= i < all.len() ==> {
            let a = #[trigger] all[i];
            &&& !a.explicit
            &&& a.implicit
            &&& implied(rules, explicit, pair_of(a))
            &&& is_first(all, i, pair_of(a))
        }
}

/// `all` is the closure of the explicit tags under the rules: it has grown
/// from them, and whatever they imply stands in it, flagged implicit where
/// it stands first.
pub open spec fn closes(rules: Seq<Implication>, explicit: Seq<FileTag>, all: Seq<FileTag>) -> bool {
    &&& grown_from(rules, explicit, all)
    &&& forall|p: Pair| implied(rules, explicit, p) ==> marked(all, p)
}

/// Every tag in `all` waits in `queue`, is `x`, or is satisfied.
spec fn settled_but(
    rules: Seq<Implication>,
    all: Seq<FileTag>,
    queue: Seq<FileTag>,
    x: Option<Pair>,
) -> bool {
    forall|i: int|
        0 <= i < all.len() ==> present(queue, pair_of(#[trigger] all[i])) || Some(pair_of(all[i]))
            == x || satisfied(rules, all, pair_of(all[i]))
}

proof fn lemma_push_keeps(tags: Seq<FileTag>, t: FileTag)
    ensures
        forall|p: Pair| present(tags, p) ==> #[trigger] present(tags.push(t), p),
        present(tags.push(t), pair_of(t)),
        forall|p: Pair, m: int| #[trigger] is_first(tags, m, p) ==> is_first(tags.push(t), m, p),
        forall|p: Pair| marked(tags, p) ==> #[trigger] marked(tags.push(t), p),
        !present(tags, pair_of(t)) ==> is_first(tags.push(t), tags.len() as int, pair_of(t)),
{
    let more = tags.push(t);
    assert forall|p: Pair| present(tags, p) implies #[trigger] present(more, p) by {
        let m = choose|m: int| 0 <= m < tags.len() && pair_of(#[trigger] tags[m]) == p;
        assert(pair_of(more[m]) == p);
    }
    assert(pair_of(more[tags.len() as int]) == pair_of(t));
    assert forall|p: Pair, m: int| #[trigger] is_first(tags, m, p) implies is_first(
        more,
        m,
        p,
    ) by {
        assert(more[m] == tags[m]);
        assert forall|k: int| 0 <= k < m implies pair_of(#[trigger] more[k]) != p by {
            assert(more[k] == tags[k]);
        }
    }
    assert forall|p: Pair| marked(tags, p) implies #[trigger] marked(more, p) by {
        let m = choose|m: int| #[trigger] is_first(tags, m, p) && tags[m].implicit;
        assert(is_first(more, m, p));
        assert(more[m] == tags[m]);
    }
    if !present(tags, pair_of(t)) {
        assert forall|k: int| 0 <= k < tags.len() implies pair_of(#[trigger] more[k]) != pair_of(
            t,
        ) by {
            assert(more[k] == tags[k]);
        }
    }
}

proof fn lemma_raise_keeps(tags: Seq<FileTag>, at: int, t: FileTag)
    requires
        0 <= at < tags.len(),
        pair_of(t) == pair_of(tags[at]),
        t.implicit,
    ensures
        forall|p: Pair| present(tags, p) <==> #[trigger] present(tags.update(at, t), p),
        forall|p: Pair, m: int|
            #[trigger] is_first(tags, m, p) <==> is_first(tags.update(at, t), m, p),
        forall|p: Pair| marked(tags, p) ==> #[trigger] marked(tags.update(at, t), p),
        is_first(tags, at, pair_of(t)) ==> marked(tags.update(at, t), pair_of(t)),
{
    let more = tags.update(at, t);
    assert forall|k: int| 0 <= k < tags.len() implies pair_of(#[trigger] more[k]) == pair_of(
        tags[k],
    ) by {}
    assert forall|p: Pair| present(tags, p) <==> #[trigger] present(more, p) by {
        if present(tags, p) {
            let m = choose|m: int| 0 <= m < tags.len() && pair_of(#[trigger] tags[m]) == p;
            assert(pair_of(more[m]) == p);
        }
        if present(more, p) {
            let m = choose|m: int| 0 <= m < more.len() && pair_of(#[trigger] more[m]) == p;
            assert(pair_of(tags[m]) == p);
        }
    }
    assert forall|p: Pair, m: int| #[trigger] is_first(tags, m, p) <==> is_first(more, m, p) by {
        if is_first(tags, m, p) {
            assert forall|k: int| 0 <= k < m implies pair_of(#[trigger] more[k]) != p by {
                assert(pair_of(more[k]) == pair_of(tags[k]));
            }
            assert(pair_of(more[m]) == pair_of(tags[m]));
        }
        if is_first(more, m, p) {
            assert forall|k: int| 0 <= k < m implies pair_of(#[trigger] tags[k]) != p by {
                assert(pair_of(more[k]) == pair_of(tags[k]));
            }
            assert(pair_of(more[m]) == pair_of(tags[m]));
        }
    }
    assert forall|p: Pair| marked(tags, p) implies #[trigger] marked(more, p) by {
        let m = choose|m: int| #[trigger] is_first(tags, m, p) && tags[m].implicit;
        assert(is_first(more, m, p));
        assert(more[m].implicit);
    }
    if is_first(tags, at, pair_of(t)) {
        assert(is_first(more, at, pair_of(t)));
        assert(more[at].implicit);
    }
}

fn copy_tags(tags: &Vec<FileTag>) -> (r: Vec<FileTag>)
    ensures
        r@ == tags@,
{
    let mut r: Vec<FileTag> = Vec::new();
    let mut i: usize = 0;
    while i < tags.len()
        invariant
            i <= tags.len(),
            r@ == tags@.take(i as int),
        decreases tags.len() - i,
    {
        r.push(tags[i]);
        assert(r@ =~= tags@.take(i + 1));
        i += 1;
    }
    assert(tags@.take(tags.len() as int) =~= tags@);
    r
}

/// The explicit tags `file_tags` of a file, closed under `rules`.
///
/// The result begins with the explicit tags in their order, and holds behind
/// them each implied tag that is not among them, once. A tag is flagged
/// implicit where a chain of rules leads to it from an explicit tag (where it
/// stands more than once among the explicit tags, the first of them is
/// flagged). Chains and cycles of any length are followed to their end.
pub fn add_implied_file_tags(file_tags: &Vec<FileTag>, rules: &Vec<Implication>) -> (all: Vec<
    FileTag,
>)
    ensures
        closes(rules@, file_tags@, all@),
        forall|f: FileId| #[trigger] all_of_file(file_tags@, f) ==> all_of_file(all@, f),
{
    let mut all = copy_tags(file_tags);
    let mut queue = copy_tags(file_tags);
    proof {
        assert forall|i: int| 0 <= i < all@.len() implies present(
            queue@,
            pair_of(#[trigger] all@[i]),
        ) by {
            assert(pair_of(queue@[i]) == pair_of(all@[i]));
        }
        assert forall|q: int| 0 <= q < queue@.len() implies derived(
            rules@,
            file_tags@,
            pair_of(#[trigger] queue@[q]),
        ) by {
            assert(pair_of(file_tags@[q]) == pair_of(queue@[q]));
        }
    }
    while queue.len() > 0
        invariant
            grown_from(rules@, file_tags@, all@),
            settled_but(rules@, all@, queue@, None),
            forall|q: int|
                0 <= q < queue@.len() ==> derived(rules@, file_tags@, pair_of(#[trigger] queue@[q])),
            forall|f: FileId| #[trigger]
                all_of_file(file_tags@, f) ==> all_of_file(all@, f) && all_of_file(queue@, f),
        decreases unmet(rules@, all@, rules@.len()), queue.len(),
    {
        let ghost unmet_before = unmet(rules@, all@, rules@.len());
        let ghost waiting_before = queue@;
        let x = queue.pop().unwrap();
        let ghost px = pair_of(x);
        proof {
            assert forall|i: int| 0 <= i < all@.len() implies present(
                queue@,
                pair_of(#[trigger] all@[i]),
            ) || Some(pair_of(all@[i])) == Some(px) || satisfied(rules@, all@, pair_of(all@[i])) by {
                let p = pair_of(all@[i]);
                if present(waiting_before, p) {
                    let q = choose|q: int|
                        0 <= q < waiting_before.len() && pair_of(#[trigger] waiting_before[q]) == p;
                    if q < queue@.len() {
                        assert(pair_of(queue@[q]) == p);
                    }
                }
            }
            assert(derived(rules@, file_tags@, pair_of(waiting_before[waiting_before.len() - 1])));
            assert forall|q: int| 0 <= q < queue@.len() implies derived(
                rules@,
                file_tags@,
                pair_of(#[trigger] queue@[q]),
            ) by {
                assert(queue@[q] == waiting_before[q]);
            }
            assert forall|f: FileId| #[trigger]
                all_of_file(file_tags@, f) implies all_of_file(queue@, f) && x.file_id == f by {
                assert(all_of_file(waiting_before, f));
                assert(waiting_before[waiting_before.len() - 1].file_id == f);
                assert forall|q: int| 0 <= q < queue@.len() implies (#[trigger] queue@[q]).file_id
                    == f by {
                    assert(queue@[q] == waiting_before[q]);
                }
            }
        }
        let mut j: usize = 0;
        while j < rules.len()
            invariant
                j <= rules.len(),
                px == pair_of(x),
                grown_from(rules@, file_tags@, all@),
                settled_but(rules@, all@, queue@, Some(px)),
                derived(rules@, file_tags@, px),
                forall|q: int|
                    0 <= q < queue@.len() ==> derived(
                        rules@,
                        file_tags@,
                        pair_of(#[trigger] queue@[q]),
                    ),
                forall|f: FileId| #[trigger]
                    all_of_file(file_tags@, f) ==> all_of_file(all@, f) && all_of_file(queue@, f)
                        && x.file_id == f,
                forall|k: int|
                    0 <= k < j && applies(#[trigger] rules@[k], px) ==> marked(
                        all@,
                        target_of(rules@[k]),
                    ),
                unmet(rules@, all@, rules@.len()) < unmet_before || (unmet(
                    rules@,
                    all@,
                    rules@.len(),
                ) == unmet_before && queue@.len() == waiting_before.len() - 1),
            decreases rules.len() - j,
        {
            let rule = rules[j];
            if rule.applies_to(x.tag_id, x.value_id) {
                let ghost all_before = all@;
                let ghost queue_before = queue@;
                let ghost to = target_of(rule);
                proof {
                    lemma_rule_extends(rules@, file_tags@, px, j as int);
                }
                match find_file_tag_for_pair(&all, rule.implied_tag_id, rule.implied_value_id) {
                    Some(m) => {
                        let mut t = all[m];
                        t.implicit = true;
                        all.set(m, t);
                        proof {
                            lemma_raise_keeps(all_before, m as int, t);
                            lemma_unmet_shrinks(rules@, all_before, all@, rules@.len() as nat);
                            lemma_unmet_shrinks(rules@, all@, all_before, rules@.len() as nat);
                            assert forall|i: int| 0 <= i < all@.len() implies pair_of(
                                #[trigger] all@[i],
                            ) == pair_of(all_before[i]) by {}
                            assert(grown_from(rules@, file_tags@, all@)) by {
                                assert forall|i: int|
                                    0 <= i < all@.len() && is_first(
                                        all_before,
                                        i,
                                        pair_of(all_before[i]),
                                    ) implies is_first(all@, i, pair_of(#[trigger] all@[i])) by {}
                            }
                            assert forall|f: FileId| #[trigger]
                                all_of_file(file_tags@, f) implies all_of_file(all@, f) by {
                                assert(all_of_file(all_before, f));
                                assert forall|i: int| 0 <= i < all@.len() implies (
                                #[trigger] all@[i]).file_id == f by {
                                    assert(all_before[i].file_id == f);
                                }
                            }
                        }
                    },
                    None => {
                        let t = FileTag {
                            file_id: x.file_id,
                            tag_id: rule.implied_tag_id,
                            value_id: rule.implied_value_id,
                            explicit: false,
                            implicit: true,
                        };
                        all.push(t);
                        queue.push(t);
                        proof {
                            lemma_push_keeps(all_before, t);
                            lemma_push_keeps(queue_before, t);
                            lemma_unmet_shrinks(rules@, all_before, all@, rules@.len() as nat);
                            assert(!present(all_before, target_of(rules@[j as int])));
                            assert(present(all@, target_of(rules@[j as int])));
                            assert(marked(all@, to)) by {
                                assert(is_first(all@, all_before.len() as int, to));
                            }
                            assert(grown_from(rules@, file_tags@, all@)) by {
                                assert forall|i: int| 0 <= i < all_before.len() implies all@[i]
                                    == all_before[i] by {}
                            }
                            assert forall|q: int| 0 <= q < queue@.len() implies derived(
                                rules@,
                                file_tags@,
                                pair_of(#[trigger] queue@[q]),
                            ) by {
                                if q < queue_before.len() {
                                    assert(queue@[q] == queue_before[q]);
                                }
                            }
                            assert forall|f: FileId| #[trigger]
                                all_of_file(file_tags@, f) implies all_of_file(all@, f)
                                && all_of_file(queue@, f) by {
                                assert(all_of_file(all_before, f));
                                assert(all_of_file(queue_before, f));
                                assert forall|i: int| 0 <= i < all@.len() implies (
                                #[trigger] all@[i]).file_id == f by {
                                    if i < all_before.len() {
                                        assert(all@[i] == all_before[i]);
                                    }
                                }
                                assert forall|i: int| 0 <= i < queue@.len() implies (
                                #[trigger] queue@[i]).file_id == f by {
                                    if i < queue_before.len() {
                                        assert(queue@[i] == queue_before[i]);
                                    }
                                }
                            }
                        }
                    },
                }
                proof {
                    assert(marked(all@, to));
                    assert forall|i: int| 0 <= i < all@.len() implies present(
                        queue@,
                        pair_of(#[trigger] all@[i]),
                    ) || Some(pair_of(all@[i])) == Some(px) || satisfied(
                        rules@,
                        all@,
                        pair_of(all@[i]),
                    ) by {
                        let p = pair_of(all@[i]);
                        if i < all_before.len() {
                            assert(pair_of(all_before[i]) == p);
                            if satisfied(rules@, all_before, p) {
                                assert(satisfied(rules@, all@, p));
                            }
                        }
                    }
                }
            }
            j += 1;
        }
        proof {
            assert(satisfied(rules@, all@, px));
        }
    }
    proof {
        assert forall|i: int| 0 <= i < all@.len() implies satisfied(
            rules@,
            all@,
            pair_of(#[trigger] all@[i]),
        ) by {
            if present(queue@, pair_of(all@[i])) {
                let q = choose|q: int|
                    0 <= q < queue@.len() && pair_of(#[trigger] queue@[q]) == pair_of(all@[i]);
            }
        }
        assert forall|p: Pair| implied(rules@, file_tags@, p) implies marked(all@, p) by {
            let i = choose|i: int|
                0 <= i < file_tags@.len() && leads_to(rules@, pair_of(#[trigger] file_tags@[i]), p);
            let from = pair_of(file_tags@[i]);
            let chain = choose|chain: Seq<int>| #[trigger]
                is_chain(rules@, from, chain) && target_of(rules@[chain.last()]) == p;
            assert(pair_of(all@[i]) == from);
            lemma_closed_holds_chains(rules@, all@, from, chain);
        }
    }
    all
}

/// The closure is one: two closures of the same explicit tags under the
/// same rules begin with the same tags, flagged alike, and hold the same
/// tags behind them, whatever their order.
pub proof fn law_closure_is_determined(
    rules: Seq<Implication>,
    explicit: Seq<FileTag>,
    one: Seq<FileTag>,
    other: Seq<FileTag>,
)
    requires
        closes(rules, explicit, one),
        closes(rules, explicit, other),
    ensures
        forall|i: int| 0 <= i < explicit.len() ==> #[trigger] one[i] == other[i],
        forall|p: Pair| present(one, p) ==> present(other, p),
        forall|i: int|
            explicit.len() <= i < one.len() ==> !(#[trigger] one[i]).explicit && one[i].implicit,
{
    assert forall|i: int| 0 <= i < explicit.len() implies #[trigger] one[i] == other[i] by {
        if one[i].implicit {
            lemma_flag_is_determined(rules, explicit, one, other, i);
        }
        if other[i].implicit {
            lemma_flag_is_determined(rules, explicit, other, one, i);
        }
    }
    assert forall|p: Pair| present(one, p) implies present(other, p) by {
        let m = choose|m: int| 0 <= m < one.len() && pair_of(#[trigger] one[m]) == p;
        if m < explicit.len() {
            assert(pair_of(other[m]) == p);
        } else {
            assert(implied(rules, explicit, p));
            assert(marked(other, p));
            let k = choose|k: int| #[trigger] is_first(other, k, p) && other[k].implicit;
            assert(pair_of(other[k]) == p);
        }
    }
}

proof fn lemma_flag_is_determined(
    rules: Seq<Implication>,
    explicit: Seq<FileTag>,
    one: Seq<FileTag>,
    other: Seq<FileTag>,
    i: int,
)
    requires
        closes(rules, explicit, one),
        closes(rules, explicit, other),
        0 <= i < explicit.len(),
        one[i].implicit,
    ensures
        other[i].implicit,
{
    let p = pair_of(one[i]);
    assert(pair_of(other[i]) == p);
    if !explicit[i].implicit {
        assert(implied(rules, explicit, p) && is_first(one, i, p));
        assert(marked(other, p));
        let m = choose|m: int| #[trigger] is_first(other, m, p) && other[m].implicit;
        if m < i {
            assert(pair_of(one[m]) == pair_of(other[m]));
        }
    }
}

/// The rule by which `from` implies `to`.
pub open spec fn rule_of(from: Pair, to: Pair) -> Implication {
    Implication {
        implying_tag_id: from.0,
        implying_value_id: from.1,
        implied_tag_id: to.0,
        implied_value_id: to.1,
    }
}

/// A tag applied to a file, as the store gives it.
pub open spec fn applied(f: FileId, p: Pair) -> FileTag {
    FileTag { file_id: f, tag_id: p.0, value_id: p.1, explicit: true, implicit: false }
}

/// A chain is followed to its end: where `a` implies `b` and `b` implies
/// `c`, three different tags, the closure of a file tagged `a` alone holds
/// `a` as applied, and `b` and `c` as implied, and nothing else.
pub proof fn law_chain_is_followed(f: FileId, a: Pair, b: Pair, c: Pair, all: Seq<FileTag>)
    requires
        a.0 != b.0,
        b.0 != c.0,
        a.0 != c.0,
        closes(seq![rule_of(a, b), rule_of(b, c)], seq![applied(f, a)], all),
    ensures
        all.len() == 3,
        all[0] == applied(f, a),
        pair_of(all[1]) == b && pair_of(all[2]) == c || pair_of(all[1]) == c && pair_of(all[2])
            == b,
        !all[1].explicit && all[1].implicit,
        !all[2].explicit && all[2].implicit,
{
    let rules = seq![rule_of(a, b), rule_of(b, c)];
    let explicit = seq![applied(f, a)];
    assert(pair_of(explicit[0]) == a);
    assert(is_chain(rules, a, seq![0int]));
    assert(seq![0int].last() == 0);
    assert(leads_to(rules, a, b));
    assert(implied(rules, explicit, b));
    let both = seq![0int, 1int];
    assert(both.last() == 1);
    assert(is_chain(rules, a, both));
    assert(leads_to(rules, a, c));
    assert(implied(rules, explicit, c));
    assert forall|p: Pair| implied(rules, explicit, p) implies p == b || p == c by {
        let i = choose|i: int|
            0 <= i < explicit.len() && leads_to(rules, pair_of(#[trigger] explicit[i]), p);
        let chain = choose|chain: Seq<int>| #[trigger]
            is_chain(rules, pair_of(explicit[i]), chain) && target_of(rules[chain.last()]) == p;
        let last = chain[chain.len() - 1];
        assert(0 <= last < 2);
    }
    lemma_two_behind_one(rules, explicit, all, b, c);
}

/// A cycle ends: where `a` implies `b` and `b` implies `a`, two different
/// tags, the closure of a file tagged `a` alone holds `a`, applied and
/// implied, and `b`, implied, and nothing else. The rules may stand in
/// either order.
pub proof fn law_cycle_ends(f: FileId, a: Pair, b: Pair, rules: Seq<Implication>, all: Seq<FileTag>)
    requires
        a.0 != b.0,
        rules == seq![rule_of(a, b), rule_of(b, a)] || rules == seq![rule_of(b, a), rule_of(a, b)],
        closes(rules, seq![applied(f, a)], all),
    ensures
        all.len() == 2,
        all[0] == (FileTag { implicit: true, ..applied(f, a) }),
        pair_of(all[1]) == b,
        !all[1].explicit && all[1].implicit,
{
    let explicit = seq![applied(f, a)];
    assert(pair_of(explicit[0]) == a);
    let ab: int = if rules[0] == rule_of(a, b) { 0 } else { 1 };
    let ba: int = 1 - ab;
    assert(rules[ab] == rule_of(a, b) && rules[ba] == rule_of(b, a));
    assert(is_chain(rules, a, seq![ab]));
    assert(seq![ab].last() == ab);
    assert(leads_to(rules, a, b));
    assert(implied(rules, explicit, b));
    let both = seq![ab, ba];
    assert(both.last() == ba);
    assert(is_chain(rules, a, both));
    assert(leads_to(rules, a, a));
    assert(implied(rules, explicit, a));
    assert forall|p: Pair| implied(rules, explicit, p) implies p == a || p == b by {
        let i = choose|i: int|
            0 <= i < explicit.len() && leads_to(rules, pair_of(#[trigger] explicit[i]), p);
        let chain = choose|chain: Seq<int>| #[trigger]
            is_chain(rules, pair_of(explicit[i]), chain) && target_of(rules[chain.last()]) == p;
        let last = chain[chain.len() - 1];
        assert(0 <= last < 2);
    }
    assert(marked(all, a));
    assert(marked(all, b));
    let ma = choose|m: int| #[trigger] is_first(all, m, a) && all[m].implicit;
    let mb = choose|m: int| #[trigger] is_first(all, m, b) && all[m].implicit;
    assert(pair_of(all[0]) == pair_of(explicit[0]));
    assert(ma == 0);
    assert(mb >= 1);
    assert forall|i: int| 1 <= i < all.len() implies !(#[trigger] all[i]).explicit && i == mb by {
        let p = pair_of(all[i]);
        assert(implied(rules, explicit, p));
        assert(is_first(all, i, p));
        if p == a {
            assert(pair_of(all[0]) == p);
        } else {
            if i < mb {
                assert(pair_of(all[i]) == b);
            } else if mb < i {
                assert(pair_of(all[mb]) == b);
            }
        }
    }
    if all.len() > 2 {
        assert(!all[1].explicit && !all[2].explicit);
    }
    assert(!all[1].explicit);
}

/// Where one explicit tag implies `b` and `c` and nothing else and is not
/// one of them, its closure is itself, as it was, and the two.
proof fn lemma_two_behind_one(
    rules: Seq<Implication>,
    explicit: Seq<FileTag>,
    all: Seq<FileTag>,
    b: Pair,
    c: Pair,
)
    requires
        explicit.len() == 1,
        !explicit[0].implicit,
        pair_of(explicit[0]) != b,
        pair_of(explicit[0]) != c,
        b != c,
        closes(rules, explicit, all),
        implied(rules, explicit, b),
        implied(rules, explicit, c),
        forall|p: Pair| implied(rules, explicit, p) ==> p == b || p == c,
    ensures
        all.len() == 3,
        all[0] == explicit[0],
        pair_of(all[1]) == b && pair_of(all[2]) == c || pair_of(all[1]) == c && pair_of(all[2])
            == b,
        !all[1].explicit && all[1].implicit,
        !all[2].explicit && all[2].implicit,
{
    assert(marked(all, b));
    assert(marked(all, c));
    let mb = choose|m: int| #[trigger] is_first(all, m, b) && all[m].implicit;
    let mc = choose|m: int| #[trigger] is_first(all, m, c) && all[m].implicit;
    assert(pair_of(all[0]) == pair_of(explicit[0]));
    assert(mb >= 1 && mc >= 1 && mb != mc);
    assert forall|i: int| 1 <= i < all.len() implies !(#[trigger] all[i]).explicit && (i == mb
        || i == mc) by {
        let p = pair_of(all[i]);
        assert(implied(rules, explicit, p));
        assert(is_first(all, i, p));
        if p == b {
            if i < mb {
                assert(pair_of(all[i]) == b);
            } else if mb < i {
                assert(pair_of(all[mb]) == b);
            }
        } else {
            if i < mc {
                assert(pair_of(all[i]) == c);
            } else if mc < i {
                assert(pair_of(all[mc]) == c);
            }
        }
    }
    if all.len() > 3 {
        assert(!all[1].explicit && !all[2].explicit && !all[3].explicit);
    }
    assert(all.len() >= 3);
    assert(!all[1].explicit && !all[2].explicit);
    if all[0].implicit {
        assert(implied(rules, explicit, pair_of(all[0])));
    }
}

} // verus!
