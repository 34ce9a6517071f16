//! The entities of the store: tags, values, files and what relates them.

use crate::errors::ErrorKind;
use crate::order::same_text;
use vstd::prelude::*;
use vstd::string::*;

verus! {

/// The identifier of a tag.
#[derive(Debug, Clone, Copy, PartialEq, Eq, Structural)]
pub struct TagId(pub u32);

/// The identifier of a value. No value has the identifier 0: the store
/// writes 0 where a file is tagged without a value.
#[derive(Debug, Clone, Copy, PartialEq, Eq, Structural)]
pub struct ValueId(pub u32);

/// The identifier of a file.
#[derive(Debug, Clone, Copy, PartialEq, Eq, Structural)]
pub struct FileId(pub u32);

/// A tag.
#[derive(Debug, Clone, PartialEq, Eq)]
pub struct Tag {
    pub id: TagId,
    pub name: String,
}

/// A value.
#[derive(Debug, Clone, PartialEq, Eq)]
pub struct Value {
    pub id: ValueId,
    pub name: String,
}

/// A file or a directory that has tags, by the directory it lies in and
/// its name there.
#[derive(Debug, Clone, PartialEq, Eq)]
pub struct File {
    pub id: FileId,
    pub dir: String,
    pub name: String,
    pub fingerprint: String,
    pub mod_time: String,
    pub size: usize,
    pub is_dir: bool,
}

/// A tag on a file, with or without a value. The two flags are worked out
/// when the tags of a file are read and are never stored: `explicit` for a
/// tag that was applied to the file, `implicit` for one that other tags imply.
#[derive(Debug, Clone, Copy, PartialEq, Eq, Structural)]
pub struct FileTag {
    pub file_id: FileId,
    pub tag_id: TagId,
    pub value_id: Option<ValueId>,
    pub explicit: bool,
    pub implicit: bool,
}

/// A rule: a file that has the implying tag (with the implying value, where
/// the rule names one) also has the implied tag, with the implied value.
#[derive(Debug, Clone, Copy, PartialEq, Eq, Structural)]
pub struct Implication {
    pub implying_tag_id: TagId,
    pub implying_value_id: Option<ValueId>,
    pub implied_tag_id: TagId,
    pub implied_value_id: Option<ValueId>,
}

/// A tag with or without a value: what a file is tagged with.
pub type Pair = (TagId, Option<ValueId>);

/// What a file tag tags its file with.
pub open spec fn pair_of(ft: FileTag) -> Pair {
    (ft.tag_id, ft.value_id)
}

/// What a rule implies.
pub open spec fn target_of(rule: Implication) -> Pair {
    (rule.implied_tag_id, rule.implied_value_id)
}

/// A rule without an implying value applies to its tag whatever the value;
/// one with an implying value applies to its tag with that value only.
pub open spec fn applies(rule: Implication, p: Pair) -> bool {
    rule.implying_tag_id == p.0 && (rule.implying_value_id.is_none() || rule.implying_value_id
        == p.1)
}

/// Whether two optional values are the same: none equals none only.
pub fn same_value(a: Option<ValueId>, b: Option<ValueId>) -> (r: bool)
    ensures
        r == (a == b),
{
    match (a, b) {
        (None, None) => true,
        (Some(x), Some(y)) => x.0 == y.0,
        _ => false,
    }
}

impl FileTag {
    /// The tag and the value of the file tag.
    pub fn to_tag_id_value_id_pair(&self) -> (r: Pair)
        ensures
            r == pair_of(*self),
    {
        (self.tag_id, self.value_id)
    }
}

impl Implication {
    /// Whether the rule applies to a file tagged with `tag_id` and `value_id`.
    pub fn applies_to(&self, tag_id: TagId, value_id: Option<ValueId>) -> (r: bool)
        ensures
            r == applies(*self, (tag_id, value_id)),
    {
        self.implying_tag_id.0 == tag_id.0 && (self.implying_value_id.is_none() || same_value(
            self.implying_value_id,
            value_id,
        ))
    }
}

/// The name of the first tag in `tags` that has the identifier `id`.
pub open spec fn name_of_tag(tags: Seq<Tag>, id: TagId) -> Option<Seq<char>>
    decreases tags.len(),
{
    if tags.len() == 0 {
        None
    } else if tags[0].id == id {
        Some(tags[0].name@)
    } else {
        name_of_tag(tags.skip(1), id)
    }
}

/// The name of the first value in `values` that has the identifier `id`.
pub open spec fn name_of_value(values: Seq<Value>, id: ValueId) -> Option<Seq<char>>
    decreases values.len(),
{
    if values.len() == 0 {
        None
    } else if values[0].id == id {
        Some(values[0].name@)
    } else {
        name_of_value(values.skip(1), id)
    }
}

/// The identifier of the first tag in `tags` that has the name `name`.
pub open spec fn id_of_tag(tags: Seq<Tag>, name: Seq<char>) -> Option<TagId>
    decreases tags.len(),
{
    if tags.len() == 0 {
        None
    } else if tags[0].name@ == name {
        Some(tags[0].id)
    } else {
        id_of_tag(tags.skip(1), name)
    }
}

/// The identifier of the first value in `values` that has the name `name`.
pub open spec fn id_of_value(values: Seq<Value>, name: Seq<char>) -> Option<ValueId>
    decreases values.len(),
{
    if values.len() == 0 {
        None
    } else if values[0].name@ == name {
        Some(values[0].id)
    } else {
        id_of_value(values.skip(1), name)
    }
}

/// The name of the tag with the identifier `id`, where `tags` holds it.
pub fn tag_name_by_id(tags: &Vec<Tag>, id: TagId) -> (r: Option<String>)
    ensures
        r.is_some() == name_of_tag(tags@, id).is_some(),
        r.is_some() ==> Some(r.unwrap()@) == name_of_tag(tags@, id),
{
    let mut i: usize = 0;
    assert(tags@.skip(0) =~= tags@);
    while i < tags.len()
        invariant
            i <= tags.len(),
            name_of_tag(tags@, id) == name_of_tag(tags@.skip(i as int), id),
        decreases tags.len() - i,
    {
        assert(tags@.skip(i as int)[0] == tags@[i as int]);
        assert(tags@.skip(i as int).skip(1) =~= tags@.skip(i + 1));
        if tags[i].id.0 == id.0 {
            return Some(tags[i].name.clone());
        }
        i += 1;
    }
    None
}

/// The name of the value with the identifier `id`, where `values` holds it.
pub fn value_name_by_id(values: &Vec<Value>, id: ValueId) -> (r: Option<String>)
    ensures
        r.is_some() == name_of_value(values@, id).is_some(),
        r.is_some() ==> Some(r.unwrap()@) == name_of_value(values@, id),
{
    let mut i: usize = 0;
    assert(values@.skip(0) =~= values@);
    while i < values.len()
        invariant
            i <= values.len(),
            name_of_value(values@, id) == name_of_value(values@.skip(i as int), id),
        decreases values.len() - i,
    {
        assert(values@.skip(i as int)[0] == values@[i as int]);
        assert(values@.skip(i as int).skip(1) =~= values@.skip(i + 1));
        if values[i].id.0 == id.0 {
            return Some(values[i].name.clone());
        }
        i += 1;
    }
    None
}

/// The tag named `name`, where `tags` holds one: `NotFound` where it does not.
pub fn load_existing_tag(tags: &Vec<Tag>, name: &str) -> (r: Result<TagId, ErrorKind>)
    ensures
        match id_of_tag(tags@, name@) {
            Some(id) => r == Ok::<TagId, ErrorKind>(id),
            None => r == Err::<TagId, ErrorKind>(ErrorKind::NotFound),
        },
{
    let mut i: usize = 0;
    assert(tags@.skip(0) =~= tags@);
    while i < tags.len()
        invariant
            i <= tags.len(),
            id_of_tag(tags@, name@) == id_of_tag(tags@.skip(i as int), name@),
        decreases tags.len() - i,
    {
        assert(tags@.skip(i as int)[0] == tags@[i as int]);
        assert(tags@.skip(i as int).skip(1) =~= tags@.skip(i + 1));
        if same_text(tags[i].name.as_str(), name) {
            return Ok(tags[i].id);
        }
        i += 1;
    }
    Err(ErrorKind::NotFound)
}

/// The value named `name`, where `values` holds one: `NotFound` where it
/// does not.
pub fn load_existing_value(values: &Vec<Value>, name: &str) -> (r: Result<ValueId, ErrorKind>)
    ensures
        match id_of_value(values@, name@) {
            Some(id) => r == Ok::<ValueId, ErrorKind>(id),
            None => r == Err::<ValueId, ErrorKind>(ErrorKind::NotFound),
        },
{
    let mut i: usize = 0;
    assert(values@.skip(0) =~= values@);
    while i < values.len()
        invariant
            i <= values.len(),
            id_of_value(values@, name@) == id_of_value(values@.skip(i as int), name@),
        decreases values.len() - i,
    {
        assert(values@.skip(i as int)[0] == values@[i as int]);
        assert(values@.skip(i as int).skip(1) =~= values@.skip(i + 1));
        if same_text(values[i].name.as_str(), name) {
            return Ok(values[i].id);
        }
        i += 1;
    }
    Err(ErrorKind::NotFound)
}

} // verus!
