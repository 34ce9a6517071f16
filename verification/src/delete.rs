//! Deleting tags and values, with all that hangs on them.
//!
//! Deleting a tag deletes, in this order, the file tags that have it, the
//! files that are left without a file tag, the rules in which it implies or
//! is implied, and the tag itself; deleting a value does the same for the
//! value. Each step is a request to the store; the store's reply decides how
//! it goes on. A step that fails ends the work: the transaction is to be
//! rolled back.

use crate::entities::{FileId, FileTag, Tag, TagId, Value, ValueId};
use crate::errors::ErrorKind;
use crate::lexical::texts;
use crate::storage::{expect_one_row, Reply, Request};
use vstd::prelude::*;

verus! {

/// What is deleted.
#[derive(Debug, Clone, Copy, PartialEq, Eq, Structural)]
pub enum Subject {
    Tag(TagId),
    Value(ValueId),
}

/// How far a cascade has come, by the request that it waits upon.
#[derive(Debug, Clone, Copy, PartialEq, Eq, Structural)]
pub enum Stage {
    /// The file tags of the subject are being read.
    Collect,
    /// The file tags of the subject are being deleted.
    Unlink,
    /// The files that had such a file tag are being deleted where nothing
    /// is left on them, one by one.
    Orphans,
    /// The rules of the subject are being deleted.
    Rules,
    /// The subject itself is being deleted.
    Row,
}

/// The files of the file tags, one for one.
pub open spec fn file_ids_of(rows: Seq<FileTag>) -> Seq<FileId> {
    Seq::new(rows.len(), |i: int| rows[i].file_id)
}

/// The files of the file tags, one for one.
pub fn extract_file_ids(file_tags: &Vec<FileTag>) -> (r: Vec<FileId>)
    ensures
        r@ == file_ids_of(file_tags@),
{
    let mut r: Vec<FileId> = Vec::new();
    let mut i: usize = 0;
    while i < file_tags.len()
        invariant
            i <= file_tags.len(),
            r@ == file_ids_of(file_tags@.take(i as int)),
        decreases file_tags.len() - i,
    {
        r.push(file_tags[i].file_id);
        assert(r@ =~= file_ids_of(file_tags@.take(i + 1)));
        i += 1;
    }
    assert(file_tags@.take(file_tags.len() as int) =~= file_tags@);
    r
}

/// A cascade as the contracts see it.
pub struct CascadeView {
    pub subject: Subject,
    pub stage: Stage,
    /// The files that had a file tag of the subject.
    pub file_ids: Seq<FileId>,
    /// In the stage `Orphans`, the index of the file that is being asked about.
    pub next: int,
}

/// Where a cascade stands after a reply, as the contracts see it.
pub enum CascadeOutcome {
    /// It waits upon another request.
    Ask(CascadeView),
    /// Everything is deleted.
    Done,
    /// It failed, and the transaction is to be rolled back.
    Failed(ErrorKind),
}

/// A cascade at its beginning.
pub open spec fn begun(subject: Subject) -> CascadeView {
    CascadeView { subject, stage: Stage::Collect, file_ids: Seq::empty(), next: 0 }
}

/// The request that a cascade waits upon.
pub open spec fn asked(c: CascadeView) -> Request {
    match c.subject {
        Subject::Tag(id) => match c.stage {
            Stage::Collect => Request::FileTagsByTag(id),
            Stage::Unlink => Request::DeleteFileTagsByTag(id),
            Stage::Orphans => Request::DeleteFileIfUntagged(c.file_ids[c.next]),
            Stage::Rules => Request::DeleteImplicationsByTag(id),
            Stage::Row => Request::DeleteTag(id),
        },
        Subject::Value(id) => match c.stage {
            Stage::Collect => Request::FileTagsByValue(id),
            Stage::Unlink => Request::DeleteFileTagsByValue(id),
            Stage::Orphans => Request::DeleteFileIfUntagged(c.file_ids[c.next]),
            Stage::Rules => Request::DeleteImplicationsByValue(id),
            Stage::Row => Request::DeleteValue(id),
        },
    }
}

/// Where a cascade stands after a reply. A failure of the store, and a
/// reply of another kind than the request calls for, end it as a failure of
/// the store. The last step must have deleted one row, the subject: any other
/// number is an `IntegrityViolation`.
pub open spec fn cascaded(c: CascadeView, reply: Reply) -> CascadeOutcome {
    match reply {
        Reply::FileTags(rows) => if c.stage == Stage::Collect {
            CascadeOutcome::Ask(
                CascadeView { stage: Stage::Unlink, file_ids: file_ids_of(rows@), next: 0, ..c },
            )
        } else {
            CascadeOutcome::Failed(ErrorKind::StoreAccess)
        },
        Reply::Affected(n) => match c.stage {
            Stage::Collect => CascadeOutcome::Failed(ErrorKind::StoreAccess),
            Stage::Unlink => if c.file_ids.len() > 0 {
                CascadeOutcome::Ask(CascadeView { stage: Stage::Orphans, next: 0, ..c })
            } else {
                CascadeOutcome::Ask(CascadeView { stage: Stage::Rules, ..c })
            },
            Stage::Orphans => if c.next + 1 < c.file_ids.len() {
                CascadeOutcome::Ask(CascadeView { next: c.next + 1, ..c })
            } else {
                CascadeOutcome::Ask(CascadeView { stage: Stage::Rules, ..c })
            },
            Stage::Rules => CascadeOutcome::Ask(CascadeView { stage: Stage::Row, ..c }),
            Stage::Row => if n == 1 {
                CascadeOutcome::Done
            } else {
                CascadeOutcome::Failed(ErrorKind::IntegrityViolation)
            },
        },
        _ => CascadeOutcome::Failed(ErrorKind::StoreAccess),
    }
}

/// The deletion of one tag or value, waiting upon a request.
pub struct Cascade {
    subject: Subject,
    stage: Stage,
    file_ids: Vec<FileId>,
    next: usize,
}

impl View for Cascade {
    type V = CascadeView;

    closed spec fn view(&self) -> CascadeView {
        CascadeView {
            subject: self.subject,
            stage: self.stage,
            file_ids: self.file_ids@,
            next: self.next as int,
        }
    }
}

/// Where a cascade stands after a reply.
pub enum CascadeStep {
    Ask(Cascade),
    Done,
    Failed(ErrorKind),
}

impl View for CascadeStep {
    type V = CascadeOutcome;

    open spec fn view(&self) -> CascadeOutcome {
        match self {
            CascadeStep::Ask(c) => CascadeOutcome::Ask(c@),
            CascadeStep::Done => CascadeOutcome::Done,
            CascadeStep::Failed(e) => CascadeOutcome::Failed(*e),
        }
    }
}

/// Begins to delete a tag.
pub fn delete_tag(tag: &Tag) -> (r: Cascade)
    ensures
        r@ == begun(Subject::Tag(tag.id)),
{
    Cascade { subject: Subject::Tag(tag.id), stage: Stage::Collect, file_ids: Vec::new(), next: 0 }
}

/// Begins to delete a value. The identifier 0 is no value's.
pub fn delete_value(value: &Value) -> (r: Cascade)
    requires
        value.id.0 != 0,
    ensures
        r@ == begun(Subject::Value(value.id)),
{
    Cascade {
        subject: Subject::Value(value.id),
        stage: Stage::Collect,
        file_ids: Vec::new(),
        next: 0,
    }
}

impl Cascade {
    #[verifier::type_invariant]
    spec fn wf(&self) -> bool {
        self.stage == Stage::Orphans ==> self.next < self.file_ids.len()
    }

    /// The request that the cascade waits upon.
    pub fn request(&self) -> (r: Request)
        ensures
            r == asked(self@),
            self@.stage == Stage::Orphans ==> 0 <= self@.next < self@.file_ids.len(),
    {
        proof {
            use_type_invariant(self);
        }
        match self.subject {
            Subject::Tag(id) => match self.stage {
                Stage::Collect => Request::FileTagsByTag(id),
                Stage::Unlink => Request::DeleteFileTagsByTag(id),
                Stage::Orphans => Request::DeleteFileIfUntagged(self.file_ids[self.next]),
                Stage::Rules => Request::DeleteImplicationsByTag(id),
                Stage::Row => Request::DeleteTag(id),
            },
            Subject::Value(id) => match self.stage {
                Stage::Collect => Request::FileTagsByValue(id),
                Stage::Unlink => Request::DeleteFileTagsByValue(id),
                Stage::Orphans => Request::DeleteFileIfUntagged(self.file_ids[self.next]),
                Stage::Rules => Request::DeleteImplicationsByValue(id),
                Stage::Row => Request::DeleteValue(id),
            },
        }
    }

    /// Goes on with the store's reply to the request.
    pub fn advance(self, reply: Reply) -> (r: CascadeStep)
        ensures
            r@ == cascaded(self@, reply),
    {
        proof {
            use_type_invariant(&self);
        }
        match reply {
            Reply::FileTags(rows) => match self.stage {
                Stage::Collect => CascadeStep::Ask(
                    Cascade {
                        subject: self.subject,
                        stage: Stage::Unlink,
                        file_ids: extract_file_ids(&rows),
                        next: 0,
                    },
                ),
                _ => CascadeStep::Failed(ErrorKind::StoreAccess),
            },
            Reply::Affected(n) => match self.stage {
                Stage::Collect => CascadeStep::Failed(ErrorKind::StoreAccess),
                Stage::Unlink => {
                    let stage = if self.file_ids.len() > 0 {
                        Stage::Orphans
                    } else {
                        Stage::Rules
                    };
                    let next = if self.file_ids.len() > 0 {
                        0
                    } else {
                        self.next
                    };
                    CascadeStep::Ask(
                        Cascade { subject: self.subject, stage, file_ids: self.file_ids, next },
                    )
                },
                Stage::Orphans => {
                    if self.next + 1 < self.file_ids.len() {
                        CascadeStep::Ask(
                            Cascade {
                                subject: self.subject,
                                stage: Stage::Orphans,
                                file_ids: self.file_ids,
                                next: self.next + 1,
                            },
                        )
                    } else {
                        CascadeStep::Ask(
                            Cascade {
                                subject: self.subject,
                                stage: Stage::Rules,
                                file_ids: self.file_ids,
                                next: self.next,
                            },
                        )
                    }
                },
                Stage::Rules => CascadeStep::Ask(
                    Cascade {
                        subject: self.subject,
                        stage: Stage::Row,
                        file_ids: self.file_ids,
                        next: self.next,
                    },
                ),
                Stage::Row => match expect_one_row(n) {
                    Ok(_) => CascadeStep::Done,
                    Err(e) => CascadeStep::Failed(e),
                },
            },
            _ => CascadeStep::Failed(ErrorKind::StoreAccess),
        }
    }
}

/// The deletion of several tags, or of several values, as the contracts see it.
pub struct DeletionView {
    /// Whether values are deleted, not tags.
    pub of_values: bool,
    /// The names of what is to be deleted.
    pub names: Seq<Seq<char>>,
    /// The index of the name that is at work.
    pub next: int,
    /// The cascade of that name, once the store has found what it names.
    pub cascade: Option<CascadeView>,
}

/// How a transaction stands, as the contracts see it.
pub enum DeletionOutcome {
    /// It waits upon another request.
    Ask(DeletionView),
    /// All is done: the transaction is to be committed.
    Commit,
    /// It failed: the transaction is to be rolled back.
    Rollback(ErrorKind),
}

/// The deletion of the tags, or of the values, that are named.
pub open spec fn deletion_begun(of_values: bool, names: Seq<Seq<char>>) -> DeletionOutcome {
    if names.len() == 0 {
        DeletionOutcome::Commit
    } else {
        DeletionOutcome::Ask(DeletionView { of_values, names, next: 0, cascade: None })
    }
}

/// What is to follow the cascade of the name at `next`.
pub open spec fn next_name(d: DeletionView) -> DeletionOutcome {
    if d.next + 1 < d.names.len() {
        DeletionOutcome::Ask(DeletionView { next: d.next + 1, cascade: None, ..d })
    } else {
        DeletionOutcome::Commit
    }
}

/// Where a deletion stands after a reply. A name that the store does not
/// know is `NotFound`; whatever ends a cascade as a failure ends the
/// deletion; the transaction is committed once the last cascade is done.
pub open spec fn deleted(d: DeletionView, reply: Reply) -> DeletionOutcome {
    match d.cascade {
        None => match reply {
            Reply::Tag(found) => if d.of_values {
                DeletionOutcome::Rollback(ErrorKind::StoreAccess)
            } else {
                match found {
                    Some(tag) => DeletionOutcome::Ask(
                        DeletionView { cascade: Some(begun(Subject::Tag(tag.id))), ..d },
                    ),
                    None => DeletionOutcome::Rollback(ErrorKind::NotFound),
                }
            },
            Reply::Value(found) => if !d.of_values {
                DeletionOutcome::Rollback(ErrorKind::StoreAccess)
            } else {
                match found {
                    Some(value) => DeletionOutcome::Ask(
                        DeletionView { cascade: Some(begun(Subject::Value(value.id))), ..d },
                    ),
                    None => DeletionOutcome::Rollback(ErrorKind::NotFound),
                }
            },
            _ => DeletionOutcome::Rollback(ErrorKind::StoreAccess),
        },
        Some(c) => match cascaded(c, reply) {
            CascadeOutcome::Ask(c) => DeletionOutcome::Ask(DeletionView { cascade: Some(c), ..d }),
            CascadeOutcome::Done => next_name(d),
            CascadeOutcome::Failed(e) => DeletionOutcome::Rollback(e),
        },
    }
}

/// The request that a deletion waits upon.
pub open spec fn deletion_asked(d: DeletionView, r: Request) -> bool {
    match d.cascade {
        None => if d.of_values {
            r matches Request::ValueByName(name) && name@ == d.names[d.next]
        } else {
            r matches Request::TagByName(name) && name@ == d.names[d.next]
        },
        Some(c) => r == asked(c),
    }
}

/// The reply names no value by the identifier 0, which is no value's.
pub open spec fn names_a_value(reply: Reply) -> bool {
    match reply {
        Reply::Value(Some(value)) => value.id.0 != 0,
        _ => true,
    }
}

/// Whether the reply names no value by the identifier 0.
pub fn names_a_value_reply(reply: &Reply) -> (r: bool)
    ensures
        r == names_a_value(*reply),
{
    match reply {
        Reply::Value(Some(value)) => value.id.0 != 0,
        _ => true,
    }
}

/// The deletion of several tags, or of several values, in one transaction.
pub struct Deletion {
    of_values: bool,
    names: Vec<String>,
    next: usize,
    cascade: Option<Cascade>,
}

impl View for Deletion {
    type V = DeletionView;

    closed spec fn view(&self) -> DeletionView {
        DeletionView {
            of_values: self.of_values,
            names: texts(self.names@),
            next: self.next as int,
            cascade: match self.cascade {
                Some(c) => Some(c@),
                None => None,
            },
        }
    }
}

/// How a transaction stands.
pub enum DeletionStep {
    Ask(Deletion),
    Commit,
    Rollback(ErrorKind),
}

impl View for DeletionStep {
    type V = DeletionOutcome;

    open spec fn view(&self) -> DeletionOutcome {
        match self {
            DeletionStep::Ask(d) => DeletionOutcome::Ask(d@),
            DeletionStep::Commit => DeletionOutcome::Commit,
            DeletionStep::Rollback(e) => DeletionOutcome::Rollback(*e),
        }
    }
}

/// Begins to delete the tags that are named, in one transaction.
pub fn run_delete_tag(tag_names: Vec<String>) -> (r: DeletionStep)
    ensures
        r@ == deletion_begun(false, texts(tag_names@)),
{
    if tag_names.len() == 0 {
        DeletionStep::Commit
    } else {
        DeletionStep::Ask(Deletion { of_values: false, names: tag_names, next: 0, cascade: None })
    }
}

/// Begins to delete the values that are named, in one transaction.
pub fn run_delete_value(value_names: Vec<String>) -> (r: DeletionStep)
    ensures
        r@ == deletion_begun(true, texts(value_names@)),
{
    if value_names.len() == 0 {
        DeletionStep::Commit
    } else {
        DeletionStep::Ask(Deletion { of_values: true, names: value_names, next: 0, cascade: None })
    }
}

impl Deletion {
    #[verifier::type_invariant]
    spec fn wf(&self) -> bool {
        self.next < self.names.len()
    }

    /// The request that the deletion waits upon.
    pub fn request(&self) -> (r: Request)
        ensures
            0 <= self@.next < self@.names.len(),
            deletion_asked(self@, r),
    {
        proof {
            use_type_invariant(self);
        }
        match &self.cascade {
            Some(c) => c.request(),
            None => if self.of_values {
                Request::ValueByName(self.names[self.next].clone())
            } else {
                Request::TagByName(self.names[self.next].clone())
            },
        }
    }

    /// Goes on with the store's reply to the request.
    pub fn advance(self, reply: Reply) -> (r: DeletionStep)
        requires
            names_a_value(reply),
        ensures
            r@ == deleted(self@, reply),
    {
        proof {
            use_type_invariant(&self);
        }
        let Deletion { of_values, names, next, cascade } = self;
        match cascade {
            None => match reply {
                Reply::Tag(found) => if of_values {
                    DeletionStep::Rollback(ErrorKind::StoreAccess)
                } else {
                    match found {
                        Some(tag) => DeletionStep::Ask(
                            Deletion { of_values, names, next, cascade: Some(delete_tag(&tag)) },
                        ),
                        None => DeletionStep::Rollback(ErrorKind::NotFound),
                    }
                },
                Reply::Value(found) => if !of_values {
                    DeletionStep::Rollback(ErrorKind::StoreAccess)
                } else {
                    match found {
                        Some(value) => DeletionStep::Ask(
                            Deletion { of_values, names, next, cascade: Some(delete_value(&value)) },
                        ),
                        None => DeletionStep::Rollback(ErrorKind::NotFound),
                    }
                },
                _ => DeletionStep::Rollback(ErrorKind::StoreAccess),
            },
            Some(c) => match c.advance(reply) {
                CascadeStep::Ask(c) => DeletionStep::Ask(
                    Deletion { of_values, names, next, cascade: Some(c) },
                ),
                CascadeStep::Done => if next + 1 < names.len() {
                    DeletionStep::Ask(Deletion { of_values, names, next: next + 1, cascade: None })
                } else {
                    DeletionStep::Commit
                },
                CascadeStep::Failed(e) => DeletionStep::Rollback(e),
            },
        }
    }
}

/// Where a deletion stands after a run of replies: each reply moves it on
/// while it asks, and once it has ended it stays as it is.
pub open spec fn deletion_run(start: DeletionOutcome, replies: Seq<Reply>) -> DeletionOutcome
    decreases replies.len(),
{
    if replies.len() == 0 {
        start
    } else {
        match deletion_run(start, replies.drop_last()) {
            DeletionOutcome::Ask(d) => deleted(d, replies.last()),
            ended => ended,
        }
    }
}

/// Nothing is committed after a failure: where the store fails a request
/// of a deletion, the deletion ends in a rollback, whatever the store says
/// afterwards.
pub proof fn law_failure_rolls_back(start: DeletionOutcome, replies: Seq<Reply>, k: int)
    requires
        0 <= k < replies.len(),
        replies[k] is Failed,
        deletion_run(start, replies.take(k)) is Ask,
    ensures
        deletion_run(start, replies) == DeletionOutcome::Rollback(ErrorKind::StoreAccess),
    decreases replies.len(),
{
    if k == replies.len() - 1 {
        assert(replies.take(k) =~= replies.drop_last());
    } else {
        assert(replies.drop_last().take(k) =~= replies.take(k));
        law_failure_rolls_back(start, replies.drop_last(), k);
    }
}

/// A delete that should have removed the tag or the value and removed no
/// row, or more than one, is never committed.
pub proof fn law_wrong_row_count_rolls_back(d: DeletionView, c: CascadeView, n: usize)
    requires
        d.cascade == Some(c),
        c.stage == Stage::Row,
        n != 1,
    ensures
        deleted(d, Reply::Affected(n)) == DeletionOutcome::Rollback(ErrorKind::IntegrityViolation),
{
}

/// A cascade changes the store in this order only: file tags, then files,
/// then rules, then the subject; and it reads before it changes anything.
pub proof fn law_cascade_order(c: CascadeView, reply: Reply)
    ensures
        !asked(begun(c.subject)).changes_store(),
        match cascaded(c, reply) {
            CascadeOutcome::Ask(after) => after.subject == c.subject && match c.stage {
                Stage::Collect => after.stage == Stage::Unlink,
                Stage::Unlink => after.stage == Stage::Orphans || (after.stage == Stage::Rules
                    && c.file_ids.len() == 0),
                Stage::Orphans => after.stage == Stage::Orphans && after.next == c.next + 1
                    || after.stage == Stage::Rules && c.next + 1 >= c.file_ids.len(),
                Stage::Rules => after.stage == Stage::Row,
                Stage::Row => false,
            },
            _ => true,
        },
{
}

/// The requests of a whole cascade, in their order: the file tags of the
/// subject are read and deleted, each file that had one is deleted if
/// nothing is left on it, the rules of the subject are deleted, and at last
/// the subject.
pub open spec fn cascade_requests(subject: Subject, file_ids: Seq<FileId>) -> Seq<Request> {
    let at = |stage: Stage| asked(CascadeView { subject, stage, file_ids, next: 0 });
    seq![at(Stage::Collect), at(Stage::Unlink)] + Seq::new(
        file_ids.len(),
        |i: int| Request::DeleteFileIfUntagged(file_ids[i]),
    ) + seq![at(Stage::Rules), at(Stage::Row)]
}

/// The requests that a cascade has made after a run of replies, and where
/// it stands then.
pub open spec fn cascade_run(c: CascadeView, replies: Seq<Reply>) -> (Seq<Request>, CascadeOutcome)
    decreases replies.len(),
{
    if replies.len() == 0 {
        (Seq::empty(), CascadeOutcome::Ask(c))
    } else {
        let before = cascade_run(c, replies.drop_last());
        match before.1 {
            CascadeOutcome::Ask(at) => (before.0.push(asked(at)), cascaded(at, replies.last())),
            _ => before,
        }
    }
}

proof fn lemma_cascade_reaches(subject: Subject, rows: Vec<FileTag>, replies: Seq<Reply>, m: int)
    requires
        2 <= m <= file_ids_of(rows@).len() + 2,
        m <= replies.len(),
        replies[0] == Reply::FileTags(rows),
        forall|i: int| 1 <= i < m ==> #[trigger] replies[i] is Affected,
    ensures
        cascade_run(begun(subject), replies.take(m)).0 == cascade_requests(
            subject,
            file_ids_of(rows@),
        ).take(m),
        cascade_run(begun(subject), replies.take(m)).1 == CascadeOutcome::Ask(
            CascadeView {
                subject,
                stage: if m - 2 < file_ids_of(rows@).len() {
                    Stage::Orphans
                } else {
                    Stage::Rules
                },
                file_ids: file_ids_of(rows@),
                next: if m - 2 < file_ids_of(rows@).len() {
                    m - 2
                } else if m == 2 {
                    0
                } else {
                    m - 3
                },
            },
        ),
    decreases m,
{
    let ids = file_ids_of(rows@);
    let wanted = cascade_requests(subject, ids);
    let taken = replies.take(m);
    assert(taken.drop_last() =~= replies.take(m - 1));
    assert(taken.last() == replies[m - 1]);
    if m == 2 {
        let one = replies.take(1);
        assert(one.drop_last() =~= Seq::<Reply>::empty());
        assert(one.last() == replies[0]);
        assert(cascade_run(begun(subject), one.drop_last()) == (
            Seq::<Request>::empty(),
            CascadeOutcome::Ask(begun(subject)),
        ));
        assert(cascade_run(begun(subject), taken).0 =~= wanted.take(2));
    } else {
        lemma_cascade_reaches(subject, rows, replies, m - 1);
        assert(wanted[m - 1] == Request::DeleteFileIfUntagged(ids[m - 3]));
        assert(wanted.take(m - 1).push(wanted[m - 1]) =~= wanted.take(m));
    }
}

/// A cascade that the store carries out makes just these requests, in
/// this order, and is done when the last of them has deleted one row.
pub proof fn law_cascade_is_complete(subject: Subject, rows: Vec<FileTag>, replies: Seq<Reply>)
    requires
        replies.len() == file_ids_of(rows@).len() + 4,
        replies[0] == Reply::FileTags(rows),
        forall|i: int| 1 <= i < replies.len() - 1 ==> #[trigger] replies[i] is Affected,
        replies.last() == Reply::Affected(1),
    ensures
        cascade_run(begun(subject), replies) == (
            cascade_requests(subject, file_ids_of(rows@)),
            CascadeOutcome::Done,
        ),
{
    let ids = file_ids_of(rows@);
    let k = ids.len() as int;
    let wanted = cascade_requests(subject, ids);
    lemma_cascade_reaches(subject, rows, replies, k + 2);
    let most = replies.drop_last();
    assert(most.drop_last() =~= replies.take(k + 2));
    assert(most.last() == replies[k + 2]);
    assert(replies[k + 2] is Affected);
    let reached = cascade_run(begun(subject), replies.take(k + 2));
    let at_rules = reached.1->Ask_0;
    assert(at_rules.stage == Stage::Rules);
    let later = cascade_run(begun(subject), most);
    assert(later.0 == reached.0.push(asked(at_rules)));
    assert(later.1 == cascaded(at_rules, replies[k + 2]));
    let at_row = later.1->Ask_0;
    assert(at_row.stage == Stage::Row);
    let whole = cascade_run(begun(subject), replies);
    assert(whole.0 == later.0.push(asked(at_row)));
    assert(whole.1 == CascadeOutcome::Done);
    assert(wanted[k + 2] == asked(at_rules));
    assert(wanted[k + 3] == asked(at_row));
    assert(wanted.take(k + 2).push(wanted[k + 2]).push(wanted[k + 3]) =~= wanted);
}

} // verus!
