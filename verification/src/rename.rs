//! Renaming a tag or a value.
//!
//! The store is asked for what is to be renamed and for what has the new
//! name already, and is changed only where the one exists, the other does
//! not, and the new name is a valid one.

use crate::delete::names_a_value;
use crate::errors::ErrorKind;
use crate::entities::{Tag, TagId, ValueId};
use crate::storage::{expect_one_row, Reply, Request};
use vstd::prelude::*;
use vstd::string::*;

verus! {

/// A name must not be empty.
pub open spec fn is_valid_name(name: Seq<char>) -> bool {
    name.len() > 0
}

/// Whether a tag may have this name: `InvalidName` where it may not.
pub fn validate_tag_name(name: &str) -> (r: Result<(), ErrorKind>)
    ensures
        is_valid_name(name@) ==> r == Ok::<(), ErrorKind>(()),
        !is_valid_name(name@) ==> r == Err::<(), ErrorKind>(ErrorKind::InvalidName),
{
    if name.unicode_len() > 0 {
        Ok(())
    } else {
        Err(ErrorKind::InvalidName)
    }
}

/// Whether a value may have this name: `InvalidName` where it may not.
pub fn validate_value_name(name: &str) -> (r: Result<(), ErrorKind>)
    ensures
        is_valid_name(name@) ==> r == Ok::<(), ErrorKind>(()),
        !is_valid_name(name@) ==> r == Err::<(), ErrorKind>(ErrorKind::InvalidName),
{
    if name.unicode_len() > 0 {
        Ok(())
    } else {
        Err(ErrorKind::InvalidName)
    }
}

/// How far a rename has come, by the request that it waits upon.
#[derive(Debug, Clone, Copy, PartialEq, Eq, Structural)]
pub enum RenameStage {
    /// What has the current name is being looked up.
    FindCurrent,
    /// What has the new name is being looked up.
    FindNew,
    /// The name is being changed.
    Update,
}

/// A rename as the contracts see it.
pub struct RenameView {
    /// Whether a value is renamed, not a tag.
    pub of_values: bool,
    pub curr_name: Seq<char>,
    pub new_name: Seq<char>,
    pub stage: RenameStage,
    /// The identifier of what is renamed, once it is found.
    pub id: u32,
}

/// How the transaction of a rename stands, as the contracts see it.
pub enum RenameOutcome {
    /// It waits upon another request.
    Ask(RenameView),
    /// The name is changed: the transaction is to be committed.
    Commit,
    /// It failed: the transaction is to be rolled back.
    Rollback(ErrorKind),
}

/// A rename at its beginning.
pub open spec fn rename_begun(of_values: bool, curr_name: Seq<char>, new_name: Seq<char>) -> RenameView {
    RenameView { of_values, curr_name, new_name, stage: RenameStage::FindCurrent, id: 0 }
}

/// The rename goes on with what was found under the current name.
pub open spec fn found_current(r: RenameView, id: Option<u32>) -> RenameOutcome {
    match id {
        None => RenameOutcome::Rollback(ErrorKind::NotFound),
        Some(id) => if is_valid_name(r.new_name) {
            RenameOutcome::Ask(RenameView { stage: RenameStage::FindNew, id, ..r })
        } else {
            RenameOutcome::Rollback(ErrorKind::InvalidName)
        },
    }
}

/// The rename goes on with whether the new name is taken.
pub open spec fn found_new(r: RenameView, taken: bool) -> RenameOutcome {
    if taken {
        RenameOutcome::Rollback(ErrorKind::AlreadyExists)
    } else {
        RenameOutcome::Ask(RenameView { stage: RenameStage::Update, ..r })
    }
}

/// Where a rename stands after a reply. What is to be renamed must exist
/// (`NotFound`), the new name must be valid (`InvalidName`) and free
/// (`AlreadyExists`), and the change must change one row
/// (`IntegrityViolation`). A failure of the store, and a reply of another
/// kind than the request calls for, end it as a failure of the store.
pub open spec fn renamed(r: RenameView, reply: Reply) -> RenameOutcome {
    match reply {
        Reply::Tag(found) => if r.of_values {
            RenameOutcome::Rollback(ErrorKind::StoreAccess)
        } else {
            match r.stage {
                RenameStage::FindCurrent => found_current(
                    r,
                    match found {
                        Some(tag) => Some(tag.id.0),
                        None => None,
                    },
                ),
                RenameStage::FindNew => found_new(r, found.is_some()),
                RenameStage::Update => RenameOutcome::Rollback(ErrorKind::StoreAccess),
            }
        },
        Reply::Value(found) => if !r.of_values {
            RenameOutcome::Rollback(ErrorKind::StoreAccess)
        } else {
            match r.stage {
                RenameStage::FindCurrent => found_current(
                    r,
                    match found {
                        Some(value) => Some(value.id.0),
                        None => None,
                    },
                ),
                RenameStage::FindNew => found_new(r, found.is_some()),
                RenameStage::Update => RenameOutcome::Rollback(ErrorKind::StoreAccess),
            }
        },
        Reply::Affected(n) => if r.stage == RenameStage::Update {
            if n == 1 {
                RenameOutcome::Commit
            } else {
                RenameOutcome::Rollback(ErrorKind::IntegrityViolation)
            }
        } else {
            RenameOutcome::Rollback(ErrorKind::StoreAccess)
        },
        _ => RenameOutcome::Rollback(ErrorKind::StoreAccess),
    }
}

/// `q` is the request that the rename waits upon.
pub open spec fn rename_asked(r: RenameView, q: Request) -> bool {
    match r.stage {
        RenameStage::FindCurrent => if r.of_values {
            q matches Request::ValueByName(name) && name@ == r.curr_name
        } else {
            q matches Request::TagByName(name) && name@ == r.curr_name
        },
        RenameStage::FindNew => if r.of_values {
            q matches Request::ValueByName(name) && name@ == r.new_name
        } else {
            q matches Request::TagByName(name) && name@ == r.new_name
        },
        RenameStage::Update => if r.of_values {
            q matches Request::RenameValue(id, name) && id.0 == r.id && name@ == r.new_name
        } else {
            q matches Request::RenameTag(id, name) && id.0 == r.id && name@ == r.new_name
        },
    }
}

/// The renaming of a tag or a value, waiting upon a request.
pub struct Rename {
    of_values: bool,
    curr_name: String,
    new_name: String,
    stage: RenameStage,
    id: u32,
}

impl View for Rename {
    type V = RenameView;

    closed spec fn view(&self) -> RenameView {
        RenameView {
            of_values: self.of_values,
            curr_name: self.curr_name@,
            new_name: self.new_name@,
            stage: self.stage,
            id: self.id,
        }
    }
}

/// How the transaction of a rename stands.
pub enum RenameStep {
    Ask(Rename),
    Commit,
    Rollback(ErrorKind),
}

impl View for RenameStep {
    type V = RenameOutcome;

    open spec fn view(&self) -> RenameOutcome {
        match self {
            RenameStep::Ask(r) => RenameOutcome::Ask(r@),
            RenameStep::Commit => RenameOutcome::Commit,
            RenameStep::Rollback(e) => RenameOutcome::Rollback(*e),
        }
    }
}

/// Begins to rename the tag `curr_name` to `new_name`.
pub fn run_rename_tag(curr_name: String, new_name: String) -> (r: Rename)
    ensures
        r@ == rename_begun(false, curr_name@, new_name@),
{
    Rename { of_values: false, curr_name, new_name, stage: RenameStage::FindCurrent, id: 0 }
}

/// Begins to rename the value `curr_name` to `new_name`.
pub fn run_rename_value(curr_name: String, new_name: String) -> (r: Rename)
    ensures
        r@ == rename_begun(true, curr_name@, new_name@),
{
    Rename { of_values: true, curr_name, new_name, stage: RenameStage::FindCurrent, id: 0 }
}

impl Rename {
    /// The request that the rename waits upon.
    pub fn request(&self) -> (q: Request)
        ensures
            rename_asked(self@, q),
    {
        match self.stage {
            RenameStage::FindCurrent => if self.of_values {
                Request::ValueByName(self.curr_name.clone())
            } else {
                Request::TagByName(self.curr_name.clone())
            },
            RenameStage::FindNew => if self.of_values {
                Request::ValueByName(self.new_name.clone())
            } else {
                Request::TagByName(self.new_name.clone())
            },
            RenameStage::Update => if self.of_values {
                Request::RenameValue(ValueId(self.id), self.new_name.clone())
            } else {
                Request::RenameTag(TagId(self.id), self.new_name.clone())
            },
        }
    }

    fn with_current(self, id: Option<u32>) -> (r: RenameStep)
        ensures
            r@ == found_current(self@, id),
    {
        match id {
            None => RenameStep::Rollback(ErrorKind::NotFound),
            Some(id) => {
                let valid = if self.of_values {
                    validate_value_name(self.new_name.as_str())
                } else {
                    validate_tag_name(self.new_name.as_str())
                };
                match valid {
                    Ok(_) => RenameStep::Ask(
                        Rename {
                            of_values: self.of_values,
                            curr_name: self.curr_name,
                            new_name: self.new_name,
                            stage: RenameStage::FindNew,
                            id,
                        },
                    ),
                    Err(e) => RenameStep::Rollback(e),
                }
            },
        }
    }

    fn with_new(self, taken: bool) -> (r: RenameStep)
        ensures
            r@ == found_new(self@, taken),
    {
        if taken {
            RenameStep::Rollback(ErrorKind::AlreadyExists)
        } else {
            RenameStep::Ask(
                Rename {
                    of_values: self.of_values,
                    curr_name: self.curr_name,
                    new_name: self.new_name,
                    stage: RenameStage::Update,
                    id: self.id,
                },
            )
        }
    }

    /// Goes on with the store's reply to the request.
    pub fn advance(self, reply: Reply) -> (r: RenameStep)
        requires
            names_a_value(reply),
        ensures
            r@ == renamed(self@, reply),
    {
        match reply {
            Reply::Tag(found) => if self.of_values {
                RenameStep::Rollback(ErrorKind::StoreAccess)
            } else {
                match self.stage {
                    RenameStage::FindCurrent => {
                        let id = match found {
                            Some(tag) => Some(tag.id.0),
                            None => None,
                        };
                        self.with_current(id)
                    },
                    RenameStage::FindNew => self.with_new(found.is_some()),
                    RenameStage::Update => RenameStep::Rollback(ErrorKind::StoreAccess),
                }
            },
            Reply::Value(found) => if !self.of_values {
                RenameStep::Rollback(ErrorKind::StoreAccess)
            } else {
                match self.stage {
                    RenameStage::FindCurrent => {
                        let id = match found {
                            Some(value) => Some(value.id.0),
                            None => None,
                        };
                        self.with_current(id)
                    },
                    RenameStage::FindNew => self.with_new(found.is_some()),
                    RenameStage::Update => RenameStep::Rollback(ErrorKind::StoreAccess),
                }
            },
            Reply::Affected(n) => match self.stage {
                RenameStage::Update => match expect_one_row(n) {
                    Ok(_) => RenameStep::Commit,
                    Err(e) => RenameStep::Rollback(e),
                },
                _ => RenameStep::Rollback(ErrorKind::StoreAccess),
            },
            _ => RenameStep::Rollback(ErrorKind::StoreAccess),
        }
    }
}

/// A rename to a name that is taken fails, and the store has not been
/// asked to change anything: both requests that were made only read.
pub proof fn law_rename_collision(
    curr_name: Seq<char>,
    new_name: Seq<char>,
    current: Tag,
    other: Tag,
    first: Request,
    second: Request,
)
    requires
        is_valid_name(new_name),
        rename_asked(rename_begun(false, curr_name, new_name), first),
        renamed(rename_begun(false, curr_name, new_name), Reply::Tag(Some(current)))
            matches RenameOutcome::Ask(r) && rename_asked(r, second),
    ensures
        !first.changes_store(),
        !second.changes_store(),
        renamed(rename_begun(false, curr_name, new_name), Reply::Tag(Some(current)))
            matches RenameOutcome::Ask(r) && renamed(r, Reply::Tag(Some(other)))
            == RenameOutcome::Rollback(ErrorKind::AlreadyExists),
{
}

/// A rename to a valid name that is free asks the store to give the tag
/// that was found the new name, and is committed once that has changed one
/// row.
pub proof fn law_rename_succeeds(
    curr_name: Seq<char>,
    new_name: Seq<char>,
    current: Tag,
    third: Request,
)
    requires
        is_valid_name(new_name),
        renamed(rename_begun(false, curr_name, new_name), Reply::Tag(Some(current)))
            matches RenameOutcome::Ask(r) && renamed(r, Reply::Tag(None))
            matches RenameOutcome::Ask(u) && rename_asked(u, third),
    ensures
        third matches Request::RenameTag(id, name) && id == current.id && name@ == new_name,
        renamed(rename_begun(false, curr_name, new_name), Reply::Tag(Some(current)))
            matches RenameOutcome::Ask(r) && renamed(r, Reply::Tag(None))
            matches RenameOutcome::Ask(u) && renamed(u, Reply::Affected(1))
            == RenameOutcome::Commit,
{
}

} // verus!
