//! What is asked of the store, and what the store says.
//!
//! The library never touches the store. It says what is to be done inside
//! the open transaction, as a [`Request`], and is told what came of it, as a
//! [`Reply`]. A request is run as the statement that [`Request::statement`]
//! gives.

use crate::entities::{File, FileId, FileTag, Implication, Tag, TagId, Value, ValueId};
use crate::errors::ErrorKind;
use vstd::prelude::*;
use vstd::string::*;

verus! {

/// A value bound to a placeholder of a statement.
#[derive(Debug, Clone, PartialEq, Eq)]
pub enum Param {
    Id(u32),
    Text(String),
}

/// A parameter as the contracts see it.
pub enum ParamView {
    Id(u32),
    Text(Seq<char>),
}

impl View for Param {
    type V = ParamView;

    open spec fn view(&self) -> ParamView {
        match self {
            Param::Id(id) => ParamView::Id(*id),
            Param::Text(text) => ParamView::Text(text@),
        }
    }
}

/// The views of a list of parameters.
pub open spec fn param_views(params: Seq<Param>) -> Seq<ParamView> {
    Seq::new(params.len(), |i: int| params[i]@)
}

/// A statement with the values of its placeholders, in their order.
#[derive(Debug, Clone, PartialEq, Eq)]
pub struct Statement {
    pub sql: String,
    pub params: Vec<Param>,
}

/// The identifier under which the store writes "no value".
pub open spec fn stored_value_id(value_id: Option<ValueId>) -> u32 {
    match value_id {
        Some(id) => id.0,
        None => 0,
    }
}

/// The value that a stored identifier stands for: none for 0.
pub open spec fn loaded_value_id(stored: u32) -> Option<ValueId> {
    if stored == 0 {
        None
    } else {
        Some(ValueId(stored))
    }
}

/// What the store writes for a value, or for none.
pub fn value_id_to_sql(value_id: Option<ValueId>) -> (r: u32)
    ensures
        r == stored_value_id(value_id),
{
    match value_id {
        Some(id) => id.0,
        None => 0,
    }
}

/// The value, or none, that the store has written.
pub fn value_id_from_sql(stored: u32) -> (r: Option<ValueId>)
    ensures
        r == loaded_value_id(stored),
{
    if stored == 0 {
        None
    } else {
        Some(ValueId(stored))
    }
}

/// What is written for a value is read back as that value, and none as none.
pub proof fn law_value_id_round_trip(value_id: Option<ValueId>)
    requires
        value_id.is_some() ==> value_id.unwrap().0 != 0,
    ensures
        loaded_value_id(stored_value_id(value_id)) == value_id,
{
}

/// A row of the file tag table: an explicit tag, which nothing implies yet.
pub fn parse_file_tag(file_id: u32, tag_id: u32, value_id: u32) -> (r: FileTag)
    ensures
        r == (FileTag {
            file_id: FileId(file_id),
            tag_id: TagId(tag_id),
            value_id: loaded_value_id(value_id),
            explicit: true,
            implicit: false,
        }),
{
    FileTag {
        file_id: FileId(file_id),
        tag_id: TagId(tag_id),
        value_id: value_id_from_sql(value_id),
        explicit: true,
        implicit: false,
    }
}

/// A statement that had to change one row did: anything else is an
/// `IntegrityViolation`.
pub fn expect_one_row(affected: usize) -> (r: Result<(), ErrorKind>)
    ensures
        affected == 1 ==> r == Ok::<(), ErrorKind>(()),
        affected != 1 ==> r == Err::<(), ErrorKind>(ErrorKind::IntegrityViolation),
{
    if affected == 1 {
        Ok(())
    } else {
        Err(ErrorKind::IntegrityViolation)
    }
}

/// The clause that makes a comparison of names ignore case, or nothing.
pub fn collation_for(ignore_case: bool) -> (r: &'static str)
    ensures
        ignore_case ==> r@ == " COLLATE NOCASE"@,
        !ignore_case ==> r@ == ""@,
{
    if ignore_case {
        " COLLATE NOCASE"
    } else {
        ""
    }
}

/// `n` placeholders with commas between them.
pub open spec fn placeholders(n: nat) -> Seq<char>
    decreases n,
{
    if n == 0 {
        Seq::empty()
    } else if n == 1 {
        seq!['?']
    } else {
        placeholders((n - 1) as nat) + seq![',', '?']
    }
}

/// The texts as parameters, in their order.
pub open spec fn text_params(values: Seq<String>) -> Seq<ParamView> {
    Seq::new(values.len(), |i: int| ParamView::Text(values[i]@))
}

/// One placeholder for each value, and the values as parameters. Without
/// values there is nothing to generate: `NoPlaceholder`.
pub fn generate_placeholders(values: &Vec<String>) -> (r: Result<(String, Vec<Param>), ErrorKind>)
    ensures
        values.len() == 0 ==> r.is_err() && r.unwrap_err() == ErrorKind::NoPlaceholder,
        values.len() > 0 ==> r.is_ok() && r.unwrap().0@ == placeholders(values.len() as nat)
            && param_views(r.unwrap().1@) == text_params(values@),
{
    if values.len() == 0 {
        return Err(ErrorKind::NoPlaceholder);
    }
    proof {
        reveal_strlit("?");
        reveal_strlit(",?");
    }
    let mut text = String::from_str("?");
    let mut params: Vec<Param> = Vec::new();
    params.push(Param::Text(values[0].clone()));
    assert("?"@ =~= seq!['?']);
    assert(",?"@ =~= seq![',', '?']);
    let mut i: usize = 1;
    while i < values.len()
        invariant
            1 <= i <= values.len(),
            params.len() == i,
            text@ == placeholders(i as nat),
            ",?"@ == seq![',', '?'],
            forall|k: int| 0 <= k < i ==> (#[trigger] params[k])@ == ParamView::Text(values[k]@),
        decreases values.len() - i,
    {
        text.append(",?");
        params.push(Param::Text(values[i].clone()));
        i += 1;
    }
    assert(param_views(params@) =~= text_params(values@));
    Ok((text, params))
}

/// What `sql`, appended to `text`, makes of it: nothing where `sql` is
/// empty; else `sql` on a line of its own, unless it brings its own blank or
/// line break.
pub open spec fn with_sql(text: Seq<char>, sql: Seq<char>) -> Seq<char> {
    if sql.len() == 0 {
        text
    } else if sql[0] == ' ' || sql[0] == '\n' {
        text + sql
    } else {
        text.push('\n') + sql
    }
}

/// What a placeholder, appended to `text`, makes of it: a comma goes
/// before it where it follows another placeholder.
pub open spec fn with_param(text: Seq<char>, needs_comma: bool) -> Seq<char> {
    if needs_comma {
        text.push(',').push('?')
    } else {
        text.push('?')
    }
}

/// Builds a statement piece by piece, with the values of its placeholders.
pub struct SqlBuilder {
    text: String,
    params: Vec<Param>,
    needs_param_comma: bool,
}

impl SqlBuilder {
    /// The text so far.
    pub closed spec fn text(&self) -> Seq<char> {
        self.text@
    }

    /// The parameters so far.
    pub closed spec fn bound(&self) -> Seq<ParamView> {
        param_views(self.params@)
    }

    /// Whether the next placeholder follows another one directly.
    pub closed spec fn needs_comma(&self) -> bool {
        self.needs_param_comma
    }

    pub fn new() -> (r: SqlBuilder)
        ensures
            r.text() == Seq::<char>::empty(),
            r.bound() == Seq::<ParamView>::empty(),
            !r.needs_comma(),
    {
        let r = SqlBuilder { text: String::new(), params: Vec::new(), needs_param_comma: false };
        assert(param_views(r.params@) =~= Seq::<ParamView>::empty());
        r
    }

    /// Appends a piece of text.
    pub fn append_sql(&mut self, sql: &str)
        ensures
            final(self).text() == with_sql(old(self).text(), sql@),
            final(self).bound() == old(self).bound(),
            final(self).needs_comma() == (sql@.len() == 0 && old(self).needs_comma()),
    {
        if sql.unicode_len() == 0 {
            return ;
        }
        let first = sql.get_char(0);
        if first != ' ' && first != '\n' {
            proof {
                reveal_strlit("\n");
            }
            assert(self.text@ + "\n"@ =~= self.text@.push('\n'));
            self.text.append("\n");
        }
        self.text.append(sql);
        self.needs_param_comma = false;
    }

    /// Appends a placeholder and binds `param` to it.
    pub fn append_param(&mut self, param: Param)
        ensures
            final(self).text() == with_param(old(self).text(), old(self).needs_comma()),
            final(self).bound() == old(self).bound().push(param@),
            final(self).needs_comma(),
    {
        proof {
            reveal_strlit(",");
            reveal_strlit("?");
        }
        let ghost before = self.text@;
        let ghost bound = self.params@;
        if self.needs_param_comma {
            self.text.append(",");
            assert(self.text@ =~= before.push(','));
        }
        let ghost middle = self.text@;
        self.text.append("?");
        assert(self.text@ =~= middle.push('?'));
        self.params.push(param);
        self.needs_param_comma = true;
        assert(param_views(self.params@) =~= param_views(bound).push(param@));
    }

    /// The text of the statement.
    pub fn sql(&self) -> (r: String)
        ensures
            r@ == self.text(),
    {
        self.text.clone()
    }

    /// The values of the placeholders, in their order.
    pub fn params(self) -> (r: Vec<Param>)
        ensures
            param_views(r@) == self.bound(),
    {
        self.params
    }
}

/// Reads the tag table, in the order of the names.
pub const SELECT_TAGS: &'static str = "
SELECT id, name
FROM tag
ORDER BY name";

/// Reads the value table, in the order of the names.
pub const SELECT_VALUES: &'static str = "
SELECT id, name
FROM value
ORDER BY name";

/// Reads the file table.
pub const SELECT_FILES: &'static str = "
SELECT id, directory, name, fingerprint, mod_time, size, is_dir
FROM file";

/// Reads the file tag table.
pub const SELECT_FILE_TAGS: &'static str = "
SELECT file_id, tag_id, value_id
FROM file_tag";

/// Reads the implication table.
pub const SELECT_IMPLICATIONS: &'static str = "
SELECT tag_id, value_id, implied_tag_id, implied_value_id
FROM implication";

/// Counts the rows of a table; the name of the table follows.
pub const COUNT_FROM: &'static str = "
SELECT count(*)
FROM ";

pub const SELECT_FILE_BY_PATH: &'static str = "
SELECT id, directory, name, fingerprint, mod_time, size, is_dir
FROM file
WHERE directory = ? AND name = ?";

pub const COPY_FILE_TAGS: &'static str = "
INSERT INTO file_tag (file_id, tag_id, value_id)
SELECT file_id, ?2, value_id
FROM file_tag
WHERE tag_id = ?1";

pub const INSERT_TAG: &'static str = "
INSERT INTO tag (name)
VALUES (?)";

pub const INSERT_VALUE: &'static str = "
INSERT INTO value (name)
VALUES (?)";

pub const SELECT_TAG_USAGE: &'static str = "
SELECT t.id, t.name, count(file_id)
FROM file_tag ft, tag t
WHERE ft.tag_id = t.id
GROUP BY t.id
ORDER BY t.name";

pub const SELECT_VALUES_BY_TAG: &'static str = "
SELECT id, name
FROM value
WHERE id IN (SELECT value_id
             FROM file_tag
             WHERE tag_id = ?1)
ORDER BY name";

/// The form in which the store writes the time of a file's last change.
pub const TIMESTAMP_FORMAT: &'static str = "%F %T%.f%:z";

pub const SELECT_TAGS_BY_NAMES: &'static str = "
SELECT id, name
FROM tag
WHERE name IN (";

pub const SELECT_VALUES_BY_NAMES: &'static str = "
SELECT id, name
FROM value
WHERE name IN (";

pub const ADD_FILE_TAG: &'static str = "
INSERT OR IGNORE INTO file_tag (file_id, tag_id, value_id)
VALUES (?1, ?2, ?3)";

pub const SELECT_FILE_TAGS_BY_TAG: &'static str = "
SELECT file_id, tag_id, value_id
FROM file_tag
WHERE tag_id = ?1";

pub const SELECT_FILE_TAGS_BY_VALUE: &'static str = "
SELECT file_id, tag_id, value_id
FROM file_tag
WHERE value_id = ?1";

pub const DELETE_FILE_TAGS_BY_TAG: &'static str = "
DELETE FROM file_tag
WHERE tag_id = ?";

pub const DELETE_FILE_TAGS_BY_VALUE: &'static str = "
DELETE FROM file_tag
WHERE value_id = ?";

pub const DELETE_UNTAGGED_FILE: &'static str = "
DELETE FROM file
WHERE id = ?1
AND (SELECT count(1)
     FROM file_tag
     WHERE file_id = ?1) == 0";

pub const DELETE_IMPLICATIONS_BY_TAG: &'static str = "
DELETE FROM implication
WHERE tag_id = ?1 OR implied_tag_id = ?1";

pub const DELETE_IMPLICATIONS_BY_VALUE: &'static str = "
DELETE FROM implication
WHERE value_id = ?1 OR implied_value_id = ?1";

pub const DELETE_TAG: &'static str = "
DELETE FROM tag
WHERE id = ?";

pub const DELETE_VALUE: &'static str = "
DELETE FROM value
WHERE id = ?";

pub const RENAME_TAG: &'static str = "
UPDATE tag
SET name = ?
WHERE id = ?";

pub const RENAME_VALUE: &'static str = "
UPDATE value
SET name = ?
WHERE id = ?";

/// A table of the store.
#[derive(Debug, Clone, Copy, PartialEq, Eq, Structural)]
pub enum Table {
    File,
    FileTag,
    Tag,
    Value,
}

impl Table {
    /// The name of the table in the store.
    pub open spec fn name(&self) -> Seq<char> {
        match self {
            Table::File => "file"@,
            Table::FileTag => "file_tag"@,
            Table::Tag => "tag"@,
            Table::Value => "value"@,
        }
    }

    /// The name of the table in the store.
    pub fn as_str(&self) -> (r: &'static str)
        ensures
            r@ == self.name(),
    {
        match self {
            Table::File => "file",
            Table::FileTag => "file_tag",
            Table::Tag => "tag",
            Table::Value => "value",
        }
    }
}

/// One thing asked of the store, inside the open transaction.
#[derive(Debug, Clone, PartialEq, Eq)]
pub enum Request {
    /// All tags, in the order of their names.
    Tags,
    /// All values, in the order of their names.
    Values,
    /// All files.
    Files,
    /// All file tags.
    FileTags,
    /// All rules.
    Implications,
    /// The number of rows of a table.
    Count(Table),
    /// The file that lies in this directory under this name, if there is one.
    FileByPath(String, String),
    /// The values that are used with this tag, in the order of their names.
    ValuesByTag(TagId),
    /// Each tag that is on a file, with the number of its files, in the
    /// order of the names.
    TagUsage,
    /// Tag with the second tag every file that has the first, with the same
    /// value.
    CopyFileTags(TagId, TagId),
    /// Make a tag of this name.
    InsertTag(String),
    /// Make a value of this name.
    InsertValue(String),
    /// The tag of this name, if there is one.
    TagByName(String),
    /// The value of this name, if there is one.
    ValueByName(String),
    /// The file tags that have this tag.
    FileTagsByTag(TagId),
    /// The file tags that have this value.
    FileTagsByValue(ValueId),
    /// Delete the file tags that have this tag.
    DeleteFileTagsByTag(TagId),
    /// Delete the file tags that have this value.
    DeleteFileTagsByValue(ValueId),
    /// Delete this file, unless a file tag is left on it.
    DeleteFileIfUntagged(FileId),
    /// Delete the rules in which this tag implies or is implied.
    DeleteImplicationsByTag(TagId),
    /// Delete the rules in which this value implies or is implied.
    DeleteImplicationsByValue(ValueId),
    /// Delete this tag.
    DeleteTag(TagId),
    /// Delete this value.
    DeleteValue(ValueId),
    /// Give this tag another name.
    RenameTag(TagId, String),
    /// Give this value another name.
    RenameValue(ValueId, String),
    /// Tag this file, unless it is tagged so already.
    AddFileTag(FileId, TagId, Option<ValueId>),
}

/// A tag and the number of files that have it.
#[derive(Debug, Clone, PartialEq, Eq)]
pub struct TagFileCount {
    pub id: TagId,
    pub name: String,
    pub file_count: u32,
}

/// What the store says to a request.
#[derive(Debug)]
pub enum Reply {
    /// The tags that were asked for.
    Tags(Vec<Tag>),
    /// The values that were asked for.
    Values(Vec<Value>),
    /// The files that were asked for.
    Files(Vec<File>),
    /// The rules that were asked for.
    Implications(Vec<Implication>),
    /// The number of rows.
    Count(u64),
    /// The file that was asked for, if there is one.
    File(Option<File>),
    /// The tags that are on files, each with the number of its files.
    Usage(Vec<TagFileCount>),
    /// The identifier of the row that was made.
    Inserted(u32),
    /// The tag that was asked for, if there is one.
    Tag(Option<Tag>),
    /// The value that was asked for, if there is one.
    Value(Option<Value>),
    /// The file tags that were asked for.
    FileTags(Vec<FileTag>),
    /// How many rows the statement changed.
    Affected(usize),
    /// The store failed.
    Failed,
}

impl Request {
    /// Whether the request changes what the store holds.
    pub open spec fn changes_store(&self) -> bool {
        match self {
            Request::Tags => false,
            Request::Values => false,
            Request::Files => false,
            Request::FileTags => false,
            Request::Implications => false,
            Request::Count(_) => false,
            Request::FileByPath(_, _) => false,
            Request::ValuesByTag(_) => false,
            Request::TagUsage => false,
            Request::TagByName(_) => false,
            Request::ValueByName(_) => false,
            Request::FileTagsByTag(_) => false,
            Request::FileTagsByValue(_) => false,
            _ => true,
        }
    }

    /// The text of the statement that carries out the request.
    pub open spec fn sql(&self) -> Seq<char> {
        match self {
            Request::Tags => SELECT_TAGS@,
            Request::Values => SELECT_VALUES@,
            Request::Files => SELECT_FILES@,
            Request::FileTags => SELECT_FILE_TAGS@,
            Request::Implications => SELECT_IMPLICATIONS@,
            Request::Count(table) => COUNT_FROM@ + table.name(),
            Request::FileByPath(_, _) => SELECT_FILE_BY_PATH@,
            Request::ValuesByTag(_) => SELECT_VALUES_BY_TAG@,
            Request::TagUsage => SELECT_TAG_USAGE@,
            Request::CopyFileTags(_, _) => COPY_FILE_TAGS@,
            Request::InsertTag(_) => INSERT_TAG@,
            Request::InsertValue(_) => INSERT_VALUE@,
            Request::TagByName(_) => by_names(SELECT_TAGS_BY_NAMES@, 1),
            Request::ValueByName(_) => by_names(SELECT_VALUES_BY_NAMES@, 1),
            Request::FileTagsByTag(_) => SELECT_FILE_TAGS_BY_TAG@,
            Request::FileTagsByValue(_) => SELECT_FILE_TAGS_BY_VALUE@,
            Request::DeleteFileTagsByTag(_) => DELETE_FILE_TAGS_BY_TAG@,
            Request::DeleteFileTagsByValue(_) => DELETE_FILE_TAGS_BY_VALUE@,
            Request::DeleteFileIfUntagged(_) => DELETE_UNTAGGED_FILE@,
            Request::DeleteImplicationsByTag(_) => DELETE_IMPLICATIONS_BY_TAG@,
            Request::DeleteImplicationsByValue(_) => DELETE_IMPLICATIONS_BY_VALUE@,
            Request::DeleteTag(_) => DELETE_TAG@,
            Request::DeleteValue(_) => DELETE_VALUE@,
            Request::RenameTag(_, _) => RENAME_TAG@,
            Request::RenameValue(_, _) => RENAME_VALUE@,
            Request::AddFileTag(_, _, _) => ADD_FILE_TAG@,
        }
    }

    /// The values of the statement's placeholders.
    pub open spec fn bound(&self) -> Seq<ParamView> {
        match self {
            Request::Tags => Seq::empty(),
            Request::Values => Seq::empty(),
            Request::Files => Seq::empty(),
            Request::FileTags => Seq::empty(),
            Request::Implications => Seq::empty(),
            Request::Count(_) => Seq::empty(),
            Request::FileByPath(dir, name) => seq![ParamView::Text(dir@), ParamView::Text(name@)],
            Request::ValuesByTag(id) => seq![ParamView::Id(id.0)],
            Request::TagUsage => Seq::empty(),
            Request::CopyFileTags(from, to) => seq![ParamView::Id(from.0), ParamView::Id(to.0)],
            Request::InsertTag(name) => seq![ParamView::Text(name@)],
            Request::InsertValue(name) => seq![ParamView::Text(name@)],
            Request::TagByName(name) => seq![ParamView::Text(name@)],
            Request::ValueByName(name) => seq![ParamView::Text(name@)],
            Request::FileTagsByTag(id) => seq![ParamView::Id(id.0)],
            Request::FileTagsByValue(id) => seq![ParamView::Id(id.0)],
            Request::DeleteFileTagsByTag(id) => seq![ParamView::Id(id.0)],
            Request::DeleteFileTagsByValue(id) => seq![ParamView::Id(id.0)],
            Request::DeleteFileIfUntagged(id) => seq![ParamView::Id(id.0)],
            Request::DeleteImplicationsByTag(id) => seq![ParamView::Id(id.0)],
            Request::DeleteImplicationsByValue(id) => seq![ParamView::Id(id.0)],
            Request::DeleteTag(id) => seq![ParamView::Id(id.0)],
            Request::DeleteValue(id) => seq![ParamView::Id(id.0)],
            Request::RenameTag(id, name) => seq![ParamView::Text(name@), ParamView::Id(id.0)],
            Request::RenameValue(id, name) => seq![ParamView::Text(name@), ParamView::Id(id.0)],
            Request::AddFileTag(file, tag, value) => seq![
                ParamView::Id(file.0),
                ParamView::Id(tag.0),
                ParamView::Id(stored_value_id(*value)),
            ],
        }
    }

    /// The statement that carries out the request.
    pub fn statement(&self) -> (r: Statement)
        ensures
            r.sql@ == self.sql(),
            param_views(r.params@) == self.bound(),
    {
        match self {
            Request::Tags => alone(SELECT_TAGS),
            Request::Values => alone(SELECT_VALUES),
            Request::Files => alone(SELECT_FILES),
            Request::FileTags => alone(SELECT_FILE_TAGS),
            Request::Implications => alone(SELECT_IMPLICATIONS),
            Request::Count(table) => {
                let sql = String::from_str(COUNT_FROM).concat(table.as_str());
                let r = Statement { sql, params: Vec::new() };
                assert(param_views(r.params@) =~= self.bound());
                r
            },
            Request::FileByPath(dir, name) => {
                let mut params: Vec<Param> = Vec::new();
                params.push(Param::Text(dir.clone()));
                params.push(Param::Text(name.clone()));
                assert(param_views(params@) =~= self.bound());
                Statement { sql: String::from_str(SELECT_FILE_BY_PATH), params }
            },
            Request::ValuesByTag(id) => with_id(SELECT_VALUES_BY_TAG, id.0),
            Request::TagUsage => alone(SELECT_TAG_USAGE),
            Request::CopyFileTags(from, to) => {
                let mut params: Vec<Param> = Vec::new();
                params.push(Param::Id(from.0));
                params.push(Param::Id(to.0));
                assert(param_views(params@) =~= self.bound());
                Statement { sql: String::from_str(COPY_FILE_TAGS), params }
            },
            Request::InsertTag(name) => with_text(INSERT_TAG, name),
            Request::InsertValue(name) => with_text(INSERT_VALUE, name),
            Request::TagByName(name) => by_name(SELECT_TAGS_BY_NAMES, name),
            Request::ValueByName(name) => by_name(SELECT_VALUES_BY_NAMES, name),
            Request::FileTagsByTag(id) => with_id(SELECT_FILE_TAGS_BY_TAG, id.0),
            Request::FileTagsByValue(id) => with_id(SELECT_FILE_TAGS_BY_VALUE, id.0),
            Request::DeleteFileTagsByTag(id) => with_id(DELETE_FILE_TAGS_BY_TAG, id.0),
            Request::DeleteFileTagsByValue(id) => with_id(DELETE_FILE_TAGS_BY_VALUE, id.0),
            Request::DeleteFileIfUntagged(id) => with_id(DELETE_UNTAGGED_FILE, id.0),
            Request::DeleteImplicationsByTag(id) => with_id(DELETE_IMPLICATIONS_BY_TAG, id.0),
            Request::DeleteImplicationsByValue(id) => with_id(DELETE_IMPLICATIONS_BY_VALUE, id.0),
            Request::DeleteTag(id) => with_id(DELETE_TAG, id.0),
            Request::DeleteValue(id) => with_id(DELETE_VALUE, id.0),
            Request::RenameTag(id, name) => with_text_and_id(RENAME_TAG, name, id.0),
            Request::RenameValue(id, name) => with_text_and_id(RENAME_VALUE, name, id.0),
            Request::AddFileTag(file, tag, value) => {
                let mut params: Vec<Param> = Vec::new();
                params.push(Param::Id(file.0));
                params.push(Param::Id(tag.0));
                params.push(Param::Id(value_id_to_sql(*value)));
                assert(param_views(params@) =~= self.bound());
                Statement { sql: String::from_str(ADD_FILE_TAG), params }
            },
        }
    }
}

fn alone(sql: &str) -> (r: Statement)
    ensures
        r.sql@ == sql@,
        param_views(r.params@) == Seq::<ParamView>::empty(),
{
    let r = Statement { sql: String::from_str(sql), params: Vec::new() };
    assert(param_views(r.params@) =~= Seq::<ParamView>::empty());
    r
}

fn with_text(sql: &str, text: &String) -> (r: Statement)
    ensures
        r.sql@ == sql@,
        param_views(r.params@) == seq![ParamView::Text(text@)],
{
    let mut params: Vec<Param> = Vec::new();
    params.push(Param::Text(text.clone()));
    assert(param_views(params@) =~= seq![ParamView::Text(text@)]);
    Statement { sql: String::from_str(sql), params }
}

/// The tag that the store has made under `name`: the reply to a request to
/// insert it gives its identifier. Any other reply is a failure of the store.
pub fn inserted_tag(name: String, reply: Reply) -> (r: Result<Tag, ErrorKind>)
    ensures
        match reply {
            Reply::Inserted(id) => r.is_ok() && r.unwrap().id == TagId(id) && r.unwrap().name@
                == name@,
            _ => r.is_err() && r.unwrap_err() == ErrorKind::StoreAccess,
        },
{
    match reply {
        Reply::Inserted(id) => Ok(Tag { id: TagId(id), name }),
        _ => Err(ErrorKind::StoreAccess),
    }
}

/// The value that the store has made under `name`.
pub fn inserted_value(name: String, reply: Reply) -> (r: Result<Value, ErrorKind>)
    ensures
        match reply {
            Reply::Inserted(id) => r.is_ok() && r.unwrap().id == ValueId(id) && r.unwrap().name@
                == name@,
            _ => r.is_err() && r.unwrap_err() == ErrorKind::StoreAccess,
        },
{
    match reply {
        Reply::Inserted(id) => Ok(Value { id: ValueId(id), name }),
        _ => Err(ErrorKind::StoreAccess),
    }
}

fn with_id(sql: &str, id: u32) -> (r: Statement)
    ensures
        r.sql@ == sql@,
        param_views(r.params@) == seq![ParamView::Id(id)],
{
    let mut params: Vec<Param> = Vec::new();
    params.push(Param::Id(id));
    assert(param_views(params@) =~= seq![ParamView::Id(id)]);
    Statement { sql: String::from_str(sql), params }
}

/// The text of a statement that selects by names: what comes before the
/// names, a placeholder for each name, and the closing bracket.
pub open spec fn by_names(select: Seq<char>, n: nat) -> Seq<char> {
    (select + placeholders(n)).push(')')
}

fn select_by_names(select: &str, names: &Vec<String>) -> (r: Option<Statement>)
    ensures
        names.len() == 0 ==> r.is_none(),
        names.len() > 0 ==> r.is_some() && r.unwrap().sql@ == by_names(select@, names.len() as nat)
            && param_views(r.unwrap().params@) == text_params(names@),
{
    match generate_placeholders(names) {
        Ok(generated) => {
            proof {
                reveal_strlit(")");
            }
            let sql = String::from_str(select).concat(generated.0.as_str()).concat(")");
            assert(sql@ =~= by_names(select@, names.len() as nat));
            Some(Statement { sql, params: generated.1 })
        },
        Err(_) => None,
    }
}

/// The statement that selects the tags of these names; none where no name
/// is given, since nothing is to be selected then.
pub fn tags_by_names(names: &Vec<String>) -> (r: Option<Statement>)
    ensures
        names.len() == 0 ==> r.is_none(),
        names.len() > 0 ==> r.is_some() && r.unwrap().sql@ == by_names(
            SELECT_TAGS_BY_NAMES@,
            names.len() as nat,
        ) && param_views(r.unwrap().params@) == text_params(names@),
{
    select_by_names(SELECT_TAGS_BY_NAMES, names)
}

/// The statement that selects the values of these names; none where no
/// name is given.
pub fn values_by_names(names: &Vec<String>) -> (r: Option<Statement>)
    ensures
        names.len() == 0 ==> r.is_none(),
        names.len() > 0 ==> r.is_some() && r.unwrap().sql@ == by_names(
            SELECT_VALUES_BY_NAMES@,
            names.len() as nat,
        ) && param_views(r.unwrap().params@) == text_params(names@),
{
    select_by_names(SELECT_VALUES_BY_NAMES, names)
}

fn by_name(select: &str, name: &String) -> (r: Statement)
    ensures
        r.sql@ == by_names(select@, 1),
        param_views(r.params@) == seq![ParamView::Text(name@)],
{
    let mut names: Vec<String> = Vec::new();
    names.push(name.clone());
    let found = select_by_names(select, &names);
    assert(text_params(names@) =~= seq![ParamView::Text(name@)]);
    found.unwrap()
}

fn with_text_and_id(sql: &str, text: &String, id: u32) -> (r: Statement)
    ensures
        r.sql@ == sql@,
        param_views(r.params@) == seq![ParamView::Text(text@), ParamView::Id(id)],
{
    let mut params: Vec<Param> = Vec::new();
    params.push(Param::Text(text.clone()));
    params.push(Param::Id(id));
    assert(param_views(params@) =~= seq![ParamView::Text(text@), ParamView::Id(id)]);
    Statement { sql: String::from_str(sql), params }
}

} // verus!
