//! Paths as text: the lexical operations on `/`-separated paths that the
//! scoping rules are built from. Nothing here touches a file system.

use vstd::prelude::*;
use vstd::string::*;

verus! {

/// The text of the root component.
pub open spec fn root_text() -> Seq<char> {
    seq!['/']
}

/// The text of the current-directory component.
pub open spec fn dot_text() -> Seq<char> {
    seq!['.']
}

/// The text of the parent-directory component.
pub open spec fn dotdot_text() -> Seq<char> {
    seq!['.', '.']
}

/// A path is absolute when it begins at the root.
pub open spec fn is_absolute(p: Seq<char>) -> bool {
    p.len() > 0 && p[0] == '/'
}

/// `b` pushed onto `a`: an absolute `b` replaces `a`; otherwise `b` follows
/// `a`, with one separator between them unless `a` is empty or already ends
/// in one.
pub open spec fn joined(a: Seq<char>, b: Seq<char>) -> Seq<char> {
    if is_absolute(b) || a.len() == 0 {
        b
    } else if a.last() == '/' {
        a + b
    } else {
        a.push('/') + b
    }
}

/// Every part pushed in turn onto `start`.
pub open spec fn joined_all(start: Seq<char>, parts: Seq<Seq<char>>) -> Seq<char>
    decreases parts.len(),
{
    if parts.len() == 0 {
        start
    } else {
        joined(joined_all(start, parts.drop_last()), parts.last())
    }
}

/// The components `done` after the segment `cur` has ended: an empty segment
/// adds nothing, and `.` counts only as the very first component.
pub open spec fn close_segment(done: Seq<Seq<char>>, cur: Seq<char>) -> Seq<Seq<char>> {
    if cur.len() == 0 || (cur == dot_text() && done.len() > 0) {
        done
    } else {
        done.push(cur)
    }
}

/// Reading `p` from the left: the components that have ended, and the text of
/// the segment that is still open. A leading separator is the root component.
pub open spec fn scan(p: Seq<char>) -> (Seq<Seq<char>>, Seq<char>)
    decreases p.len(),
{
    if p.len() == 0 {
        (Seq::empty(), Seq::empty())
    } else {
        let before = scan(p.drop_last());
        if p.last() != '/' {
            (before.0, before.1.push(p.last()))
        } else if p.len() == 1 {
            (seq![root_text()], Seq::empty())
        } else {
            (close_segment(before.0, before.1), Seq::empty())
        }
    }
}

/// The components of a path: the root if it is absolute, then each non-empty
/// segment between separators, without the `.` segments that are not first.
pub open spec fn components_of(p: Seq<char>) -> Seq<Seq<char>> {
    close_segment(scan(p).0, scan(p).1)
}

/// The texts of a list of strings.
pub open spec fn texts(v: Seq<String>) -> Seq<Seq<char>> {
    Seq::new(v.len(), |i: int| v[i]@)
}

/// `p` begins with `base`, component by component.
pub open spec fn begins_with(p: Seq<char>, base: Seq<char>) -> bool {
    components_of(base).is_prefix_of(components_of(p))
}

/// What is left of `p` behind `base`, as a relative path.
pub open spec fn stripped(p: Seq<char>, base: Seq<char>) -> Option<Seq<char>> {
    if begins_with(p, base) {
        Some(
            joined_all(
                Seq::empty(),
                components_of(p).skip(components_of(base).len() as int),
            ),
        )
    } else {
        None
    }
}

pub fn is_absolute_path(p: &str) -> (r: bool)
    ensures
        r == is_absolute(p@),
{
    p.unicode_len() > 0 && p.get_char(0) == '/'
}

/// Pushes `b` onto `a`.
pub fn join(a: &str, b: &str) -> (r: String)
    ensures
        r@ == joined(a@, b@),
{
    let n = a.unicode_len();
    if is_absolute_path(b) || n == 0 {
        String::from_str(b)
    } else if a.get_char(n - 1) == '/' {
        String::from_str(a).concat(b)
    } else {
        proof {
            reveal_strlit("/");
        }
        assert(a@ + "/"@ =~= a@.push('/'));
        String::from_str(a).concat("/").concat(b)
    }
}

/// Pushes `parts[from..to]` in turn onto `start`.
pub fn join_all(start: String, parts: &Vec<String>, from: usize, to: usize) -> (r: String)
    requires
        from <= to <= parts.len(),
    ensures
        r@ == joined_all(start@, texts(parts@).subrange(from as int, to as int)),
{
    let mut acc = start;
    let mut i = from;
    while i < to
        invariant
            from <= i <= to <= parts.len(),
            acc@ == joined_all(start@, texts(parts@).subrange(from as int, i as int)),
        decreases to - i,
    {
        proof {
            let t = texts(parts@);
            assert(t.subrange(from as int, i + 1).drop_last() =~= t.subrange(from as int, i as int));
            assert(t.subrange(from as int, i + 1).last() == parts@[i as int]@);
        }
        acc = join(acc.as_str(), parts[i].as_str());
        i += 1;
    }
    acc
}

fn close(done: &mut Vec<String>, cur: &str)
    ensures
        texts(final(done)@) == close_segment(texts(old(done)@), cur@),
{
    let n = cur.unicode_len();
    if n == 0 {
        return ;
    }
    if n == 1 && cur.get_char(0) == '.' && done.len() > 0 {
        assert(cur@ =~= dot_text());
        return ;
    }
    let ghost before = done@;
    done.push(String::from_str(cur));
    assert(texts(done@) =~= texts(before).push(cur@));
}

/// Splits a path into its components.
pub fn components(p: &str) -> (out: Vec<String>)
    ensures
        texts(out@) == components_of(p@),
{
    let n = p.unicode_len();
    let mut done: Vec<String> = Vec::new();
    let mut start: usize = 0;
    let mut i: usize = 0;
    assert(texts(done@) =~= Seq::<Seq<char>>::empty());
    assert(p@.take(0) =~= Seq::<char>::empty());
    while i < n
        invariant
            n == p@.len(),
            start <= i <= n,
            texts(done@) == scan(p@.take(i as int)).0,
            p@.subrange(start as int, i as int) =~= scan(p@.take(i as int)).1,
        decreases n - i,
    {
        let c = p.get_char(i);
        proof {
            assert(p@.take(i + 1).drop_last() =~= p@.take(i as int));
            assert(p@.take(i + 1).last() == c);
        }
        if c == '/' {
            if i == 0 {
                proof {
                    reveal_strlit("/");
                }
                done.push(String::from_str("/"));
                assert("/"@ =~= root_text());
                assert(texts(done@) =~= seq![root_text()]);
            } else {
                close(&mut done, p.substring_char(start, i));
            }
            start = i + 1;
        } else {
            assert(p@.subrange(start as int, i + 1) =~= p@.subrange(start as int, i as int).push(c));
        }
        i += 1;
    }
    assert(p@.take(n as int) =~= p@);
    close(&mut done, p.substring_char(start, n));
    done
}

/// Whether `p` begins with `base`, component by component.
pub fn starts_with(p: &str, base: &str) -> (r: bool)
    ensures
        r == begins_with(p@, base@),
{
    let cp = components(p);
    let cb = components(base);
    has_prefix(&cp, &cb)
}

/// Whether the list `whole` begins with the list `head`.
pub fn has_prefix(whole: &Vec<String>, head: &Vec<String>) -> (r: bool)
    ensures
        r == texts(head@).is_prefix_of(texts(whole@)),
{
    if head.len() > whole.len() {
        return false;
    }
    let mut i: usize = 0;
    while i < head.len()
        invariant
            head.len() <= whole.len(),
            i <= head.len(),
            forall|k: int| 0 <= k < i ==> texts(head@)[k] == texts(whole@)[k],
        decreases head.len() - i,
    {
        if head[i] != whole[i] {
            assert(texts(head@)[i as int] != texts(whole@)[i as int]);
            return false;
        }
        i += 1;
    }
    assert(texts(head@) =~= texts(whole@).subrange(0, head.len() as int));
    true
}

/// What is left of `p` behind `base`, where `p` begins with `base`.
pub fn strip_prefix(p: &str, base: &str) -> (r: Option<String>)
    ensures
        r.is_some() == begins_with(p@, base@),
        r.is_some() ==> Some(r.unwrap()@) == stripped(p@, base@),
{
    let cp = components(p);
    let cb = components(base);
    if has_prefix(&cp, &cb) {
        Some(join_all(String::new(), &cp, cb.len(), cp.len()))
    } else {
        None
    }
}

/// A component that names an entry: neither the root, nor `.`, nor `..`.
pub open spec fn is_name(c: Seq<char>) -> bool {
    c != root_text() && c != dot_text() && c != dotdot_text()
}

/// The path without its last component; none for a path without components
/// and for one that ends at the root.
pub open spec fn parent_of(p: Seq<char>) -> Option<Seq<char>> {
    let cs = components_of(p);
    if cs.len() == 0 || cs.last() == root_text() {
        None
    } else {
        Some(joined_all(Seq::empty(), cs.drop_last()))
    }
}

/// The last component, where it names an entry.
pub open spec fn name_of(p: Seq<char>) -> Option<Seq<char>> {
    let cs = components_of(p);
    if cs.len() > 0 && is_name(cs.last()) {
        Some(cs.last())
    } else {
        None
    }
}

/// Whether a component names an entry.
pub fn names_entry(c: &str) -> (r: bool)
    ensures
        r == is_name(c@),
{
    let n = c.unicode_len();
    if n == 1 {
        let c0 = c.get_char(0);
        assert(c@ =~= seq![c0]);
        c0 != '/' && c0 != '.'
    } else if n == 2 {
        let c0 = c.get_char(0);
        let c1 = c.get_char(1);
        assert(c@ =~= seq![c0, c1]);
        !(c0 == '.' && c1 == '.')
    } else {
        true
    }
}

/// The path without its last component.
pub fn parent(p: &str) -> (r: Option<String>)
    ensures
        r.is_some() == parent_of(p@).is_some(),
        r.is_some() ==> Some(r.unwrap()@) == parent_of(p@),
{
    let cs = components(p);
    let n = cs.len();
    if n == 0 {
        return None;
    }
    let last = cs[n - 1].as_str();
    if last.unicode_len() == 1 && last.get_char(0) == '/' {
        assert(last@ =~= root_text());
        return None;
    }
    assert(texts(cs@).subrange(0, n - 1) =~= texts(cs@).drop_last());
    Some(join_all(String::new(), &cs, 0, n - 1))
}

/// The last component, where it names an entry.
pub fn file_name(p: &str) -> (r: Option<String>)
    ensures
        r.is_some() == name_of(p@).is_some(),
        r.is_some() ==> Some(r.unwrap()@) == name_of(p@),
{
    let cs = components(p);
    let n = cs.len();
    if n > 0 && names_entry(cs[n - 1].as_str()) {
        Some(cs[n - 1].clone())
    } else {
        None
    }
}

/// The lexically cleaned form of a path: what `path_clean::clean` makes of it.
pub uninterp spec fn cleaned(p: Seq<char>) -> Seq<char>;

/// Calls `path_clean::clean`, which removes `.` segments, repeated separators
/// and, as far as the text allows, `..` segments with the segment before
/// them, without looking at any file system. The result is named, not
/// described. One thing is stated of it: a path that begins with a
/// separator is cleaned to one that does.
#[verifier::external_body]
pub(crate) fn clean(p: &str) -> (r: String)
    ensures
        r@ == cleaned(p@),
        is_absolute(p@) ==> is_absolute(r@),
{
    path_clean::clean(p)
}

/// A segment: a non-empty text without a separator.
pub open spec fn is_segment(s: Seq<char>) -> bool {
    s.len() > 0 && forall|i: int| 0 <= i < s.len() ==> s[i] != '/'
}

/// What reading a path gives: the open segment holds no separator, the
/// components behind the first are segments other than `.`, the first is the
/// root or a segment, and it is the root just where the path is absolute.
proof fn lemma_scan_facts(p: Seq<char>)
    ensures
        forall|i: int| 0 <= i < scan(p).1.len() ==> scan(p).1[i] != '/',
        forall|i: int|
            1 <= i < scan(p).0.len() ==> is_segment(#[trigger] scan(p).0[i]) && scan(p).0[i]
                != dot_text(),
        scan(p).0.len() > 0 ==> scan(p).0[0] == root_text() || is_segment(scan(p).0[0]),
        is_absolute(p) ==> scan(p).0.len() > 0 && scan(p).0[0] == root_text(),
        !is_absolute(p) && scan(p).0.len() > 0 ==> is_segment(scan(p).0[0]),
    decreases p.len(),
{
    if p.len() > 0 {
        let q = p.drop_last();
        lemma_scan_facts(q);
        if p.len() > 1 {
            assert(q[0] == p[0]);
        }
        assert(root_text()[0] == '/');
    }
}

/// The same of the components of a path.
pub proof fn lemma_component_facts(p: Seq<char>)
    ensures
        forall|i: int|
            1 <= i < components_of(p).len() ==> is_segment(#[trigger] components_of(p)[i])
                && components_of(p)[i] != dot_text(),
        components_of(p).len() > 0 ==> components_of(p)[0] == root_text() || is_segment(
            components_of(p)[0],
        ),
        is_absolute(p) ==> components_of(p).len() > 0 && components_of(p)[0] == root_text(),
        !is_absolute(p) && components_of(p).len() > 0 ==> is_segment(components_of(p)[0]),
{
    lemma_scan_facts(p);
}

/// Text without a separator, read behind `x`, lengthens the open segment.
proof fn lemma_scan_segment(x: Seq<char>, s: Seq<char>)
    requires
        forall|i: int| 0 <= i < s.len() ==> s[i] != '/',
    ensures
        scan(x + s) == (scan(x).0, scan(x).1 + s),
    decreases s.len(),
{
    if s.len() == 0 {
        assert(x + s =~= x);
        assert(scan(x).1 + s =~= scan(x).1);
    } else {
        let t = s.drop_last();
        lemma_scan_segment(x, t);
        assert((x + s).drop_last() =~= x + t);
        assert((x + s).last() == s.last());
        assert((scan(x).1 + t).push(s.last()) =~= scan(x).1 + s);
    }
}

/// Segments other than `.`, joined, are a relative path with just these
/// components.
pub proof fn lemma_components_of_joined(segs: Seq<Seq<char>>)
    requires
        segs.len() > 0,
        forall|i: int| 0 <= i < segs.len() ==> is_segment(#[trigger] segs[i]) && segs[i] != dot_text(),
    ensures
        components_of(joined_all(Seq::empty(), segs)) == segs,
        scan(joined_all(Seq::empty(), segs)) == (segs.drop_last(), segs.last()),
        joined_all(Seq::empty(), segs).len() > 0,
        !is_absolute(joined_all(Seq::empty(), segs)),
    decreases segs.len(),
{
    let empty = Seq::<char>::empty();
    let s = segs.last();
    let front = segs.drop_last();
    let whole = joined_all(empty, segs);
    assert(is_segment(s));
    assert(s[0] != '/');
    if segs.len() == 1 {
        assert(joined_all(empty, front) == empty);
        lemma_scan_segment(empty, s);
        assert(empty + s =~= s);
        assert(front.push(s) =~= segs);
    } else {
        let j = joined_all(empty, front);
        assert forall|i: int| 0 <= i < front.len() implies is_segment(#[trigger] front[i])
            && front[i] != dot_text() by {
            assert(front[i] == segs[i]);
        }
        lemma_components_of_joined(front);
        assert(is_segment(front.last()));
        // the text ends in its open segment, which holds no separator
        lemma_scan_ends_open(j);
        let x = j.push('/');
        assert(x.drop_last() =~= j);
        lemma_scan_segment(x, s);
        assert(empty + s =~= s);
        assert(front.push(s) =~= segs);
        assert(whole[0] == j[0]);
    }
}

/// A path with a non-empty open segment ends in the last character of it.
proof fn lemma_scan_ends_open(p: Seq<char>)
    requires
        scan(p).1.len() > 0,
    ensures
        p.len() > 0,
        p.last() == scan(p).1.last(),
{
}

/// A segment pushed onto a path is read as the segment that follows the
/// path's components.
proof fn lemma_components_of_pushed(p: Seq<char>, s: Seq<char>)
    requires
        is_segment(s),
    ensures
        components_of(joined(p, s)) == close_segment(components_of(p), s),
{
    assert(s[0] != '/');
    if p.len() == 0 {
        lemma_scan_segment(p, s);
        assert(p + s =~= s);
        assert(scan(p).1 + s =~= s);
    } else if p.last() == '/' {
        lemma_scan_segment(p, s);
        assert(scan(p).1 =~= Seq::<char>::empty());
        assert(scan(p).1 + s =~= s);
    } else {
        let x = p.push('/');
        assert(x.drop_last() =~= p);
        lemma_scan_segment(x, s);
        assert(scan(x).1 + s =~= s);
    }
}

/// Segments other than `.`, pushed onto a path, follow the path's components.
pub proof fn lemma_components_of_pushed_all(p: Seq<char>, segs: Seq<Seq<char>>)
    requires
        components_of(p).len() > 0,
        forall|i: int| 0 <= i < segs.len() ==> is_segment(#[trigger] segs[i]) && segs[i] != dot_text(),
    ensures
        components_of(joined_all(p, segs)) == components_of(p) + segs,
    decreases segs.len(),
{
    if segs.len() == 0 {
        assert(components_of(p) + segs =~= components_of(p));
    } else {
        let front = segs.drop_last();
        assert forall|i: int| 0 <= i < front.len() implies is_segment(#[trigger] front[i])
            && front[i] != dot_text() by {
            assert(front[i] == segs[i]);
        }
        lemma_components_of_pushed_all(p, front);
        lemma_components_of_pushed(joined_all(p, front), segs.last());
        assert((components_of(p) + front).push(segs.last()) =~= components_of(p) + segs);
    }
}

} // verus!
