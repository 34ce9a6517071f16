//! Listing tags: all of them, those used with a value, and those of a file,
//! applied and implied.
//!
//! The functions here work on rows that were read from the store.

use crate::entities::{
    id_of_value, load_existing_value, name_of_tag, name_of_value, pair_of, tag_name_by_id,
    value_name_by_id, File, FileId, FileTag, Implication, Tag, Value, ValueId,
};
use crate::errors::ErrorKind;
use crate::implied::{add_implied_file_tags, closes, implied, is_first, marked};
use crate::lexical::texts;
use crate::order::{
    lemma_text_le_antisymmetric, lemma_text_le_total, lemma_text_le_transitive, name_le,
    same_text, text_le,
};
use crate::path::{dir_and_name_of, ends_in_parent_dir, ScopedPath};
use vstd::multiset::Multiset;
use vstd::prelude::*;
use vstd::string::*;

verus! {

/// The tags that are used with one value, or all tags where no value is named.
#[derive(Debug, PartialEq, Eq)]
pub struct ValueTagGroup {
    pub value_name: Option<String>,
    pub tag_names: Vec<String>,
}

/// The tags of one file.
#[derive(Debug, PartialEq, Eq)]
pub struct FileTagGroup {
    pub path: String,
    pub tags: Vec<TagData>,
}

/// One tag of a file, by name, with its value where it has one.
#[derive(Debug, PartialEq, Eq)]
pub struct TagData {
    pub tag_name: String,
    pub value_name: Option<String>,
    pub explicit: bool,
    pub implicit: bool,
}

/// The names of `tags`, in their order.
pub open spec fn names_of(tags: Seq<Tag>) -> Seq<Seq<char>> {
    Seq::new(tags.len(), |i: int| tags[i].name@)
}

/// All tags, as one group without a value.
pub fn list_all_tags(tags: &Vec<Tag>) -> (r: Vec<ValueTagGroup>)
    ensures
        r.len() == 1,
        r[0].value_name.is_none(),
        texts(r[0].tag_names@) == names_of(tags@),
{
    let mut tag_names: Vec<String> = Vec::new();
    let mut i: usize = 0;
    while i < tags.len()
        invariant
            i <= tags.len(),
            tag_names.len() == i,
            texts(tag_names@) == names_of(tags@.take(i as int)),
        decreases tags.len() - i,
    {
        let ghost before = texts(tag_names@);
        tag_names.push(tags[i].name.clone());
        proof {
            let after = texts(tag_names@);
            let wanted = names_of(tags@.take(i + 1));
            assert forall|k: int| 0 <= k < after.len() implies after[k] == wanted[k] by {
                if k < i {
                    assert(after[k] == before[k]);
                    assert(before[k] == names_of(tags@.take(i as int))[k]);
                }
            }
            assert(after =~= wanted);
        }
        i += 1;
    }
    assert(tags@.take(tags.len() as int) =~= tags@);
    let mut groups: Vec<ValueTagGroup> = Vec::new();
    groups.push(ValueTagGroup { value_name: None, tag_names });
    groups
}

/// The rows of `rows` that `keep` keeps, in their order.
pub open spec fn kept(rows: Seq<FileTag>, keep: spec_fn(FileTag) -> bool) -> Seq<FileTag>
    decreases rows.len(),
{
    if rows.len() == 0 {
        Seq::empty()
    } else if keep(rows.last()) {
        kept(rows.drop_last(), keep).push(rows.last())
    } else {
        kept(rows.drop_last(), keep)
    }
}

/// The file tags that have the value `id`.
pub open spec fn rows_with_value(rows: Seq<FileTag>, id: ValueId) -> Seq<FileTag> {
    kept(rows, |ft: FileTag| ft.value_id == Some(id))
}

/// The file tags of the file `id`.
pub open spec fn rows_of_file(rows: Seq<FileTag>, id: FileId) -> Seq<FileTag> {
    kept(rows, |ft: FileTag| ft.file_id == id)
}

/// The file tags in `file_tags` that have the value `id`.
pub fn file_tags_by_value_id(file_tags: &Vec<FileTag>, id: ValueId) -> (r: Vec<FileTag>)
    ensures
        r@ == rows_with_value(file_tags@, id),
{
    let mut r: Vec<FileTag> = Vec::new();
    let mut i: usize = 0;
    while i < file_tags.len()
        invariant
            i <= file_tags.len(),
            r@ == rows_with_value(file_tags@.take(i as int), id),
        decreases file_tags.len() - i,
    {
        assert(file_tags@.take(i + 1).drop_last() =~= file_tags@.take(i as int));
        let keep = match file_tags[i].value_id {
            Some(v) => v.0 == id.0,
            None => false,
        };
        if keep {
            r.push(file_tags[i]);
        }
        i += 1;
    }
    assert(file_tags@.take(file_tags.len() as int) =~= file_tags@);
    r
}

/// The file tags in `file_tags` that belong to the file `id`.
pub fn file_tags_by_file_id(file_tags: &Vec<FileTag>, id: FileId) -> (r: Vec<FileTag>)
    ensures
        r@ == rows_of_file(file_tags@, id),
{
    let mut r: Vec<FileTag> = Vec::new();
    let mut i: usize = 0;
    while i < file_tags.len()
        invariant
            i <= file_tags.len(),
            r@ == rows_of_file(file_tags@.take(i as int), id),
        decreases file_tags.len() - i,
    {
        assert(file_tags@.take(i + 1).drop_last() =~= file_tags@.take(i as int));
        if file_tags[i].file_id.0 == id.0 {
            r.push(file_tags[i]);
        }
        i += 1;
    }
    assert(file_tags@.take(file_tags.len() as int) =~= file_tags@);
    r
}

/// Each name stands before the names behind it and differs from them.
pub open spec fn strictly_sorted(names: Seq<Seq<char>>) -> bool {
    forall|i: int, j: int|
        0 <= i < j < names.len() ==> text_le(#[trigger] names[i], #[trigger] names[j]) && names[i]
            != names[j]
}

/// Puts `name` into a sorted list of different names, unless it is there.
pub fn insert_name(names: &mut Vec<String>, name: String)
    requires
        strictly_sorted(texts(old(names)@)),
    ensures
        strictly_sorted(texts(final(names)@)),
        forall|s: Seq<char>|
            texts(final(names)@).contains(s) <==> texts(old(names)@).contains(s) || s
                == name@,
{
    let ghost before = texts(names@);
    let mut pos: usize = 0;
    let mut placed = false;
    while pos < names.len() && !placed
        invariant
            pos <= names.len(),
            texts(names@) == before,
            before == texts(old(names)@),
            strictly_sorted(before),
            forall|k: int| 0 <= k < pos ==> text_le(#[trigger] before[k], name@) && before[k] != name@,
            placed ==> pos < names.len() && text_le(name@, before[pos as int]) && before[pos as int]
                != name@,
        decreases names.len() - pos, if placed { 0int } else { 1int },
    {
        assert(before[pos as int] == names@[pos as int]@);
        if name_le(name.as_str(), names[pos].as_str()) {
            if name_le(names[pos].as_str(), name.as_str()) {
                proof {
                    lemma_text_le_antisymmetric(name@, before[pos as int]);
                    assert forall|s: Seq<char>| before.contains(s) || s == name@ implies before.contains(
                        s,
                    ) by {
                        if s == name@ {
                            assert(before[pos as int] == s);
                        }
                    }
                }
                return ;
            }
            placed = true;
        } else {
            proof {
                lemma_text_le_total(name@, before[pos as int]);
            }
            pos += 1;
        }
    }
    names.insert(pos, name);
    proof {
        let after = texts(names@);
        assert(after =~= before.insert(pos as int, name@));
        assert forall|i: int, j: int| 0 <= i < j < after.len() implies text_le(
            #[trigger] after[i],
            #[trigger] after[j],
        ) && after[i] != after[j] by {
            if j < pos {
                assert(after[i] == before[i] && after[j] == before[j]);
            } else if j == pos {
                assert(after[i] == before[i]);
            } else if i < pos {
                assert(after[i] == before[i] && after[j] == before[j - 1]);
            } else if i == pos {
                // the name stands before what stood at `pos`, which stands before the rest
                assert(after[j] == before[j - 1]);
                assert(text_le(name@, before[pos as int]));
                if j - 1 > pos {
                    assert(text_le(before[pos as int], before[j - 1]));
                    lemma_text_le_transitive(name@, before[pos as int], before[j - 1]);
                    if name@ == before[j - 1] {
                        lemma_text_le_antisymmetric(before[pos as int], before[j - 1]);
                    }
                }
            } else {
                assert(after[i] == before[i - 1] && after[j] == before[j - 1]);
            }
        }
        assert forall|s: Seq<char>| after.contains(s) <==> before.contains(s) || s
            == name@ by {
            if after.contains(s) {
                let k = choose|k: int| 0 <= k < after.len() && after[k] == s;
                if k < pos {
                    assert(before[k] == s);
                } else if k > pos {
                    assert(before[k - 1] == s);
                }
            }
            if before.contains(s) {
                let k = choose|k: int| 0 <= k < before.len() && before[k] == s;
                if k < pos {
                    assert(after[k] == s);
                } else {
                    assert(after[k + 1] == s);
                }
            }
            if s == name@ {
                assert(after[pos as int] == s);
            }
        }
    }
}

/// Every file tag has a tag that `tags` holds.
pub open spec fn tags_known(file_tags: Seq<FileTag>, tags: Seq<Tag>) -> bool {
    forall|i: int|
        0 <= i < file_tags.len() ==> name_of_tag(tags, (#[trigger] file_tags[i]).tag_id).is_some()
}

/// `name` is the name of the tag of one of the file tags.
pub open spec fn names_a_tag(file_tags: Seq<FileTag>, tags: Seq<Tag>, name: Seq<char>) -> bool {
    exists|i: int|
        0 <= i < file_tags.len() && name_of_tag(tags, (#[trigger] file_tags[i]).tag_id) == Some(
            name,
        )
}

/// The names of the tags of `file_tags`, each once, in order. A file tag
/// whose tag `tags` does not hold is `NotFound`.
pub fn tag_names_by_value_id(file_tags: &Vec<FileTag>, tags: &Vec<Tag>) -> (r: Result<
    Vec<String>,
    ErrorKind,
>)
    ensures
        r.is_ok() == tags_known(file_tags@, tags@),
        r.is_err() ==> r == Err::<Vec<String>, ErrorKind>(ErrorKind::NotFound),
        r.is_ok() ==> strictly_sorted(texts(r.unwrap()@)),
        r.is_ok() ==> forall|s: Seq<char>|
            texts(r.unwrap()@).contains(s) <==> names_a_tag(file_tags@, tags@, s),
{
    let mut names: Vec<String> = Vec::new();
    let mut i: usize = 0;
    while i < file_tags.len()
        invariant
            i <= file_tags.len(),
            tags_known(file_tags@.take(i as int), tags@),
            strictly_sorted(texts(names@)),
            forall|s: Seq<char>|
                texts(names@).contains(s) <==> names_a_tag(
                    file_tags@.take(i as int),
                    tags@,
                    s,
                ),
        decreases file_tags.len() - i,
    {
        let ghost seen = file_tags@.take(i as int);
        let ghost more = file_tags@.take(i + 1);
        let ghost listed = texts(names@);
        match tag_name_by_id(tags, file_tags[i].tag_id) {
            Some(name) => {
                let ghost text = name@;
                insert_name(&mut names, name);
                proof {
                    assert(more[i as int] == file_tags@[i as int]);
                    assert forall|k: int| 0 <= k < more.len() implies name_of_tag(
                        tags@,
                        (#[trigger] more[k]).tag_id,
                    ).is_some() by {
                        if k < i {
                            assert(more[k] == seen[k]);
                        }
                    }
                    assert forall|s: Seq<char>| texts(names@).contains(s) <==> names_a_tag(
                        more,
                        tags@,
                        s,
                    ) by {
                        if names_a_tag(seen, tags@, s) {
                            let k = choose|k: int|
                                0 <= k < seen.len() && name_of_tag(
                                    tags@,
                                    (#[trigger] seen[k]).tag_id,
                                ) == Some(s);
                            assert(more[k] == seen[k]);
                        }
                        if names_a_tag(more, tags@, s) {
                            let k = choose|k: int|
                                0 <= k < more.len() && name_of_tag(
                                    tags@,
                                    (#[trigger] more[k]).tag_id,
                                ) == Some(s);
                            if k < i {
                                assert(more[k] == seen[k]);
                            }
                        }
                        assert(listed.contains(s) <==> names_a_tag(seen, tags@, s));
                    }
                }
            },
            None => {
                return Err(ErrorKind::NotFound);
            },
        }
        i += 1;
    }
    assert(file_tags@.take(file_tags.len() as int) =~= file_tags@);
    Ok(names)
}

/// Each tag stands before the tags behind it by its name, or has their name.
pub open spec fn sorted_by_tag_name(data: Seq<TagData>) -> bool {
    forall|i: int, j: int|
        0 <= i < j < data.len() ==> text_le(
            (#[trigger] data[i]).tag_name@,
            (#[trigger] data[j]).tag_name@,
        )
}

/// The same tags, in the order of their names.
pub fn sort_by_tag_name(data: Vec<TagData>) -> (r: Vec<TagData>)
    ensures
        sorted_by_tag_name(r@),
        r@.to_multiset() == data@.to_multiset(),
{
    let ghost given = data@;
    let mut rest = data;
    let mut out: Vec<TagData> = Vec::new();
    assert(out@.to_multiset().add(rest@.to_multiset()) =~= given.to_multiset()) by {
        broadcast use vstd::seq_lib::to_multiset_len;

        assert(out@.to_multiset().len() == 0);
    }
    while rest.len() > 0
        invariant
            sorted_by_tag_name(out@),
            out@.to_multiset().add(rest@.to_multiset()) == given.to_multiset(),
        decreases rest.len(),
    {
        let ghost rest_before = rest@;
        let ghost out_before = out@;
        let x = rest.pop().unwrap();
        assert(rest_before =~= rest@.push(x));
        let mut pos: usize = 0;
        let mut placed = false;
        while pos < out.len() && !placed
            invariant
                pos <= out.len(),
                out@ == out_before,
                forall|k: int| 0 <= k < pos ==> text_le((#[trigger] out@[k]).tag_name@, x.tag_name@),
                placed ==> pos < out.len() && text_le(x.tag_name@, out@[pos as int].tag_name@),
            decreases out.len() - pos, if placed { 0int } else { 1int },
        {
            if name_le(x.tag_name.as_str(), out[pos].tag_name.as_str()) {
                placed = true;
            } else {
                proof {
                    lemma_text_le_total(x.tag_name@, out@[pos as int].tag_name@);
                }
                pos += 1;
            }
        }
        out.insert(pos, x);
        proof {
            vstd::seq_lib::to_multiset_build(rest@, x);
            vstd::seq_lib::to_multiset_insert(out_before, pos as int, x);
            assert(out@.to_multiset().add(rest@.to_multiset()) =~= out_before.to_multiset().add(
                rest_before.to_multiset(),
            ));
            assert forall|i: int, j: int| 0 <= i < j < out@.len() implies text_le(
                (#[trigger] out@[i]).tag_name@,
                (#[trigger] out@[j]).tag_name@,
            ) by {
                if j < pos {
                    assert(out@[i] == out_before[i] && out@[j] == out_before[j]);
                } else if j == pos {
                    assert(out@[i] == out_before[i]);
                } else if i < pos {
                    assert(out@[i] == out_before[i] && out@[j] == out_before[j - 1]);
                } else if i == pos {
                    assert(out@[j] == out_before[j - 1]);
                    if j - 1 > pos {
                        assert(text_le(
                            out_before[pos as int].tag_name@,
                            out_before[j - 1].tag_name@,
                        ));
                        lemma_text_le_transitive(
                            x.tag_name@,
                            out_before[pos as int].tag_name@,
                            out_before[j - 1].tag_name@,
                        );
                    }
                } else {
                    assert(out@[i] == out_before[i - 1] && out@[j] == out_before[j - 1]);
                }
            }
        }
    }
    assert(rest@.to_multiset() =~= Multiset::<TagData>::empty()) by {
        broadcast use vstd::seq_lib::to_multiset_len;

        assert(rest@.to_multiset().len() == 0);
    }
    assert(out@.to_multiset().add(Multiset::<TagData>::empty()) =~= out@.to_multiset());
    out
}

/// The store holds the names that the file tag refers to.
pub open spec fn nameable(ft: FileTag, tags: Seq<Tag>, values: Seq<Value>) -> bool {
    &&& name_of_tag(tags, ft.tag_id).is_some()
    &&& ft.value_id.is_some() ==> name_of_value(values, ft.value_id.unwrap()).is_some()
}

/// `d` is the file tag `ft` by name.
pub open spec fn names_file_tag(d: TagData, ft: FileTag, tags: Seq<Tag>, values: Seq<Value>) -> bool {
    &&& Some(d.tag_name@) == name_of_tag(tags, ft.tag_id)
    &&& match ft.value_id {
        Some(v) => d.value_name.is_some() && Some(d.value_name.unwrap()@) == name_of_value(
            values,
            v,
        ),
        None => d.value_name.is_none(),
    }
    &&& d.explicit == ft.explicit
    &&& d.implicit == ft.implicit
}

/// `data` are the file tags by name, one for one.
pub open spec fn all_named(
    data: Seq<TagData>,
    file_tags: Seq<FileTag>,
    tags: Seq<Tag>,
    values: Seq<Value>,
) -> bool {
    &&& data.len() == file_tags.len()
    &&& forall|i: int|
        0 <= i < data.len() ==> names_file_tag(#[trigger] data[i], file_tags[i], tags, values)
}

/// Every file tag is nameable.
pub open spec fn all_nameable(file_tags: Seq<FileTag>, tags: Seq<Tag>, values: Seq<Value>) -> bool {
    forall|i: int| 0 <= i < file_tags.len() ==> nameable(#[trigger] file_tags[i], tags, values)
}

/// The file tags by name, in their order. A file tag whose tag or value the
/// store does not hold is `NotFound`.
pub fn name_file_tags(file_tags: &Vec<FileTag>, tags: &Vec<Tag>, values: &Vec<Value>) -> (r:
    Result<Vec<TagData>, ErrorKind>)
    ensures
        r.is_ok() == all_nameable(file_tags@, tags@, values@),
        r.is_err() ==> r.unwrap_err() == ErrorKind::NotFound,
        r.is_ok() ==> all_named(r.unwrap()@, file_tags@, tags@, values@),
{
    let mut data: Vec<TagData> = Vec::new();
    let mut i: usize = 0;
    while i < file_tags.len()
        invariant
            i <= file_tags.len(),
            data.len() == i,
            forall|k: int| 0 <= k < i ==> nameable(#[trigger] file_tags@[k], tags@, values@),
            forall|k: int|
                0 <= k < i ==> names_file_tag(#[trigger] data@[k], file_tags@[k], tags@, values@),
        decreases file_tags.len() - i,
    {
        let ft = file_tags[i];
        let tag_name = match tag_name_by_id(tags, ft.tag_id) {
            Some(name) => name,
            None => {
                return Err(ErrorKind::NotFound);
            },
        };
        let value_name = match ft.value_id {
            Some(v) => match value_name_by_id(values, v) {
                Some(name) => Some(name),
                None => {
                    return Err(ErrorKind::NotFound);
                },
            },
            None => None,
        };
        let ghost before = data@;
        data.push(TagData { tag_name, value_name, explicit: ft.explicit, implicit: ft.implicit });
        proof {
            assert forall|k: int| 0 <= k < i + 1 implies names_file_tag(
                #[trigger] data@[k],
                file_tags@[k],
                tags@,
                values@,
            ) by {
                if k < i {
                    assert(data@[k] == before[k]);
                }
            }
        }
        i += 1;
    }
    Ok(data)
}

/// What listing the tags of a file gives: the closure of its explicit tags
/// under the rules, each by name, in the order of the tag names; `NotFound`
/// where the store lacks a name.
pub open spec fn lists_tags(
    file_tags: Seq<FileTag>,
    rules: Seq<Implication>,
    tags: Seq<Tag>,
    values: Seq<Value>,
    r: Result<Vec<TagData>, ErrorKind>,
) -> bool {
    exists|all: Seq<FileTag>| #[trigger]
        closes(rules, file_tags, all) && lists_closure(all, tags, values, r)
}

/// What listing the file tags `all` gives: each by name, in the order of the
/// tag names; `NotFound` where the store lacks a name.
pub open spec fn lists_closure(
    all: Seq<FileTag>,
    tags: Seq<Tag>,
    values: Seq<Value>,
    r: Result<Vec<TagData>, ErrorKind>,
) -> bool {
    &&& r.is_ok() == all_nameable(all, tags, values)
    &&& r.is_err() ==> r.unwrap_err() == ErrorKind::NotFound
    &&& r.is_ok() ==> sorted_by_tag_name(r.unwrap()@) && exists|listed: Seq<TagData>| #[trigger]
        all_named(listed, all, tags, values) && r.unwrap()@.to_multiset() == listed.to_multiset()
}

/// The tags of a file, applied and implied, by name and in the order of
/// their names.
pub fn tag_data_by_file_id(
    file_tags: &Vec<FileTag>,
    rules: &Vec<Implication>,
    tags: &Vec<Tag>,
    values: &Vec<Value>,
) -> (r: Result<Vec<TagData>, ErrorKind>)
    ensures
        lists_tags(file_tags@, rules@, tags@, values@, r),
{
    let all = add_implied_file_tags(file_tags, rules);
    match name_file_tags(&all, tags, values) {
        Ok(listed) => {
            let ghost named = listed@;
            let sorted = sort_by_tag_name(listed);
            let r = Ok(sorted);
            proof {
                assert(all_named(named, all@, tags@, values@));
                assert(lists_closure(all@, tags@, values@, r));
                assert(closes(rules@, file_tags@, all@));
            }
            r
        },
        Err(e) => {
            let r = Err(e);
            proof {
                assert(lists_closure(all@, tags@, values@, r));
                assert(closes(rules@, file_tags@, all@));
            }
            r
        },
    }
}

/// Two closures of the same explicit tags hold the same tags, so the store
/// can name all of the one where it can name all of the other.
pub proof fn lemma_closures_agree(
    rules: Seq<Implication>,
    explicit: Seq<FileTag>,
    one: Seq<FileTag>,
    other: Seq<FileTag>,
    tags: Seq<Tag>,
    values: Seq<Value>,
)
    requires
        closes(rules, explicit, one),
        closes(rules, explicit, other),
        all_nameable(one, tags, values),
    ensures
        all_nameable(other, tags, values),
{
    assert forall|i: int| 0 <= i < other.len() implies nameable(
        #[trigger] other[i],
        tags,
        values,
    ) by {
        if i < explicit.len() {
            assert(pair_of(one[i]) == pair_of(other[i]));
            assert(nameable(one[i], tags, values));
        } else {
            let p = pair_of(other[i]);
            assert(implied(rules, explicit, p));
            assert(marked(one, p));
            let m = choose|m: int| #[trigger] is_first(one, m, p) && one[m].implicit;
            assert(nameable(one[m], tags, values));
        }
    }
}

/// The store can name every tag that the explicit tags and the rules give.
pub open spec fn listable(
    file_tags: Seq<FileTag>,
    rules: Seq<Implication>,
    tags: Seq<Tag>,
    values: Seq<Value>,
) -> bool {
    exists|all: Seq<FileTag>| #[trigger]
        closes(rules, file_tags, all) && all_nameable(all, tags, values)
}

/// Listing the tags of a file succeeds just where they are listable.
pub proof fn lemma_lists_where_listable(
    file_tags: Seq<FileTag>,
    rules: Seq<Implication>,
    tags: Seq<Tag>,
    values: Seq<Value>,
    r: Result<Vec<TagData>, ErrorKind>,
)
    requires
        lists_tags(file_tags, rules, tags, values, r),
    ensures
        r.is_ok() == listable(file_tags, rules, tags, values),
{
    let all = choose|all: Seq<FileTag>| #[trigger]
        closes(rules, file_tags, all) && lists_closure(all, tags, values, r);
    if listable(file_tags, rules, tags, values) {
        let other = choose|other: Seq<FileTag>| #[trigger]
            closes(rules, file_tags, other) && all_nameable(other, tags, values);
        lemma_closures_agree(rules, file_tags, other, all, tags, values);
    }
}

/// The group of the value named `name`: the names of the tags that are used
/// with it, each once, in order.
pub open spec fn is_group_of(
    group: ValueTagGroup,
    name: Seq<char>,
    tags: Seq<Tag>,
    values: Seq<Value>,
    file_tags: Seq<FileTag>,
) -> bool {
    let rows = rows_with_value(file_tags, id_of_value(values, name).unwrap());
    &&& group.value_name.is_some()
    &&& group.value_name.unwrap()@ == name
    &&& strictly_sorted(texts(group.tag_names@))
    &&& forall|s: Seq<char>| texts(group.tag_names@).contains(s) <==> names_a_tag(rows, tags, s)
}

/// The store holds the value named `name` and every tag that is used with it.
pub open spec fn has_group(
    name: Seq<char>,
    tags: Seq<Tag>,
    values: Seq<Value>,
    file_tags: Seq<FileTag>,
) -> bool {
    &&& id_of_value(values, name).is_some()
    &&& tags_known(rows_with_value(file_tags, id_of_value(values, name).unwrap()), tags)
}

/// The tags that are used with each of the values named, one group for each
/// name in its turn; all tags in one group where no value is named. A name
/// that no value has, and a file tag whose tag the store lacks, is `NotFound`.
pub fn list_tags_for_values(
    value_names: &Vec<String>,
    tags: &Vec<Tag>,
    values: &Vec<Value>,
    file_tags: &Vec<FileTag>,
) -> (r: Result<Vec<ValueTagGroup>, ErrorKind>)
    ensures
        value_names.len() == 0 ==> r.is_ok() && r.unwrap().len() == 1
            && r.unwrap()[0].value_name.is_none() && texts(r.unwrap()[0].tag_names@)
            == names_of(tags@),
        value_names.len() > 0 ==> {
            &&& r.is_ok() == forall|i: int|
                0 <= i < value_names.len() ==> has_group(
                    (#[trigger] value_names[i])@,
                    tags@,
                    values@,
                    file_tags@,
                )
            &&& r.is_ok() ==> r.unwrap().len() == value_names.len() && forall|i: int|
                0 <= i < value_names.len() ==> is_group_of(
                    #[trigger] r.unwrap()[i],
                    value_names[i]@,
                    tags@,
                    values@,
                    file_tags@,
                )
        },
        r.is_err() ==> r.unwrap_err() == ErrorKind::NotFound,
{
    if value_names.len() == 0 {
        return Ok(list_all_tags(tags));
    }
    let mut groups: Vec<ValueTagGroup> = Vec::new();
    let mut i: usize = 0;
    while i < value_names.len()
        invariant
            i <= value_names.len(),
            groups.len() == i,
            forall|k: int|
                0 <= k < i ==> has_group((#[trigger] value_names[k])@, tags@, values@, file_tags@),
            forall|k: int|
                0 <= k < i ==> is_group_of(
                    #[trigger] groups[k],
                    value_names[k]@,
                    tags@,
                    values@,
                    file_tags@,
                ),
        decreases value_names.len() - i,
    {
        let id = match load_existing_value(values, value_names[i].as_str()) {
            Ok(id) => id,
            Err(e) => {
                return Err(e);
            },
        };
        let rows = file_tags_by_value_id(file_tags, id);
        let tag_names = match tag_names_by_value_id(&rows, tags) {
            Ok(names) => names,
            Err(e) => {
                return Err(e);
            },
        };
        let ghost before = groups@;
        groups.push(ValueTagGroup { value_name: Some(value_names[i].clone()), tag_names });
        proof {
            assert forall|k: int| 0 <= k < i + 1 implies is_group_of(
                #[trigger] groups[k],
                value_names[k]@,
                tags@,
                values@,
                file_tags@,
            ) by {
                if k < i {
                    assert(groups[k] == before[k]);
                }
            }
        }
        i += 1;
    }
    Ok(groups)
}

/// The identifier of the first file in `files` that lies in `dir` under `name`.
pub open spec fn id_of_file(files: Seq<File>, dir: Seq<char>, name: Seq<char>) -> Option<FileId>
    decreases files.len(),
{
    if files.len() == 0 {
        None
    } else if files[0].dir@ == dir && files[0].name@ == name {
        Some(files[0].id)
    } else {
        id_of_file(files.skip(1), dir, name)
    }
}

/// The file that is stored for a scoped path: the one that lies in the
/// path's parent directory under the path's name.
pub fn file_by_path(files: &Vec<File>, scoped_path: &ScopedPath) -> (r: Option<FileId>)
    requires
        !ends_in_parent_dir(scoped_path.inner()),
    ensures
        r == id_of_file(
            files@,
            dir_and_name_of(scoped_path.inner()).0,
            dir_and_name_of(scoped_path.inner()).1,
        ),
{
    let key = scoped_path.inner_as_dir_and_name();
    let dir = key.0;
    let name = key.1;
    let mut i: usize = 0;
    assert(files@.skip(0) =~= files@);
    while i < files.len()
        invariant
            i <= files.len(),
            dir@ == dir_and_name_of(scoped_path.inner()).0,
            name@ == dir_and_name_of(scoped_path.inner()).1,
            id_of_file(files@, dir@, name@) == id_of_file(files@.skip(i as int), dir@, name@),
        decreases files.len() - i,
    {
        assert(files@.skip(i as int)[0] == files@[i as int]);
        assert(files@.skip(i as int).skip(1) =~= files@.skip(i + 1));
        if same_text(files[i].dir.as_str(), dir.as_str()) && same_text(
            files[i].name.as_str(),
            name.as_str(),
        ) {
            return Some(files[i].id);
        }
        i += 1;
    }
    None
}

/// A path as it was given, and as it is scoped to the root.
pub struct ResolvedPath {
    pub path: String,
    pub scoped: ScopedPath,
}

/// The file that is stored for a resolved path.
pub open spec fn file_of(files: Seq<File>, p: ResolvedPath) -> Option<FileId> {
    id_of_file(files, dir_and_name_of(p.scoped.inner()).0, dir_and_name_of(p.scoped.inner()).1)
}

/// The store can list the tags of each path that it holds a file for.
pub open spec fn paths_listable(
    paths: Seq<ResolvedPath>,
    files: Seq<File>,
    file_tags: Seq<FileTag>,
    rules: Seq<Implication>,
    tags: Seq<Tag>,
    values: Seq<Value>,
) -> bool {
    forall|i: int|
        0 <= i < paths.len() && file_of(files, #[trigger] paths[i]).is_some() ==> listable(
            rows_of_file(file_tags, file_of(files, paths[i]).unwrap()),
            rules,
            tags,
            values,
        )
}

/// `groups` are the tags of the paths that the store holds a file for, one
/// group for each such path, in the order of the paths.
pub open spec fn groups_of_paths(
    groups: Seq<FileTagGroup>,
    paths: Seq<ResolvedPath>,
    files: Seq<File>,
    file_tags: Seq<FileTag>,
    rules: Seq<Implication>,
    tags: Seq<Tag>,
    values: Seq<Value>,
) -> bool
    decreases paths.len(),
{
    if paths.len() == 0 {
        groups.len() == 0
    } else {
        match file_of(files, paths.last()) {
            None => groups_of_paths(groups, paths.drop_last(), files, file_tags, rules, tags, values),
            Some(id) => {
                &&& groups.len() > 0
                &&& groups.last().path@ == paths.last().path@
                &&& lists_tags(
                    rows_of_file(file_tags, id),
                    rules,
                    tags,
                    values,
                    Ok(groups.last().tags),
                )
                &&& groups_of_paths(
                    groups.drop_last(),
                    paths.drop_last(),
                    files,
                    file_tags,
                    rules,
                    tags,
                    values,
                )
            },
        }
    }
}

/// The tags of each path that the store holds a file for: the file's tags,
/// applied and implied, by name and in the order of their names. A path
/// without a file is passed over; a name that the store lacks is `NotFound`.
pub fn list_tags_for_paths(
    paths: &Vec<ResolvedPath>,
    files: &Vec<File>,
    file_tags: &Vec<FileTag>,
    rules: &Vec<Implication>,
    tags: &Vec<Tag>,
    values: &Vec<Value>,
) -> (r: Result<Vec<FileTagGroup>, ErrorKind>)
    requires
        forall|i: int| 0 <= i < paths.len() ==> !ends_in_parent_dir((#[trigger] paths[i]).scoped.inner()),
    ensures
        r.is_ok() == paths_listable(paths@, files@, file_tags@, rules@, tags@, values@),
        r.is_err() ==> r.unwrap_err() == ErrorKind::NotFound,
        r.is_ok() ==> groups_of_paths(
            r.unwrap()@,
            paths@,
            files@,
            file_tags@,
            rules@,
            tags@,
            values@,
        ),
{
    let mut groups: Vec<FileTagGroup> = Vec::new();
    let mut i: usize = 0;
    assert(paths@.take(0) =~= Seq::<ResolvedPath>::empty());
    while i < paths.len()
        invariant
            i <= paths.len(),
            forall|k: int|
                0 <= k < paths.len() ==> !ends_in_parent_dir((#[trigger] paths[k]).scoped.inner()),
            paths_listable(paths@.take(i as int), files@, file_tags@, rules@, tags@, values@),
            groups_of_paths(
                groups@,
                paths@.take(i as int),
                files@,
                file_tags@,
                rules@,
                tags@,
                values@,
            ),
        decreases paths.len() - i,
    {
        let ghost seen = paths@.take(i as int);
        let ghost more = paths@.take(i + 1);
        proof {
            assert(more.drop_last() =~= seen);
            assert(more.last() == paths@[i as int]);
            assert forall|k: int| 0 <= k < seen.len() implies more[k] == seen[k] by {}
        }
        match file_by_path(files, &paths[i].scoped) {
            Some(id) => {
                let rows = file_tags_by_file_id(file_tags, id);
                let listed = tag_data_by_file_id(&rows, rules, tags, values);
                proof {
                    lemma_lists_where_listable(rows@, rules@, tags@, values@, listed);
                }
                match listed {
                    Ok(data) => {
                        let ghost before = groups@;
                        groups.push(FileTagGroup { path: paths[i].path.clone(), tags: data });
                        proof {
                            assert(groups@.drop_last() =~= before);
                            assert(paths_listable(more, files@, file_tags@, rules@, tags@, values@))
                                by {
                                assert forall|k: int|
                                    0 <= k < more.len() && file_of(
                                        files@,
                                        #[trigger] more[k],
                                    ).is_some() implies listable(
                                    rows_of_file(file_tags@, file_of(files@, more[k]).unwrap()),
                                    rules@,
                                    tags@,
                                    values@,
                                ) by {
                                    if k < i {
                                        assert(more[k] == seen[k]);
                                    }
                                }
                            }
                        }
                    },
                    Err(e) => {
                        proof {
                            assert(paths@[i as int] == paths[i as int]);
                        }
                        return Err(e);
                    },
                }
            },
            None => {
                proof {
                    assert(paths_listable(more, files@, file_tags@, rules@, tags@, values@)) by {
                        assert forall|k: int|
                            0 <= k < more.len() && file_of(files@, #[trigger] more[k]).is_some() implies listable(
                            rows_of_file(file_tags@, file_of(files@, more[k]).unwrap()),
                            rules@,
                            tags@,
                            values@,
                        ) by {
                            if k < i {
                                assert(more[k] == seen[k]);
                            }
                        }
                    }
                }
            },
        }
        i += 1;
    }
    assert(paths@.take(paths.len() as int) =~= paths@);
    Ok(groups)
}

} // verus!
