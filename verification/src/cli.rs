//! What the `tags` command prints.
//!
//! Nothing is printed here: the lines are worked out and handed back, for
//! the caller to write.

use crate::entities::{File, FileTag, Implication, Tag, Value};
use crate::errors::ErrorKind;
use crate::lexical::texts;
use crate::path::ends_in_parent_dir;
use crate::tags::{
    groups_of_paths, has_group, is_group_of, list_all_tags, list_tags_for_paths,
    list_tags_for_values, names_of, paths_listable, FileTagGroup, ResolvedPath, TagData,
    ValueTagGroup,
};
use ansi_term::{Colour, Style};
use vstd::prelude::*;
use vstd::string::*;

verus! {

/// When to print the name of the file or value that a group belongs to.
#[derive(Debug, Clone, Copy, PartialEq, Eq, Structural)]
pub enum PrintNameMode {
    /// Where there is more than one group, or the output is no terminal.
    Auto,
    Always,
    Never,
}

/// One piece of output.
#[derive(Debug, PartialEq, Eq)]
pub enum Output {
    /// A line of text.
    Line(String),
    /// Items to be laid out in columns, as wide as the terminal allows.
    Columns(Vec<String>),
}

/// A piece of output as the contracts see it.
pub enum OutputView {
    Line(Seq<char>),
    Columns(Seq<Seq<char>>),
}

impl View for Output {
    type V = OutputView;

    open spec fn view(&self) -> OutputView {
        match self {
            Output::Line(text) => OutputView::Line(text@),
            Output::Columns(items) => OutputView::Columns(texts(items@)),
        }
    }
}

/// The views of a list of output.
pub open spec fn output_views(out: Seq<Output>) -> Seq<OutputView> {
    Seq::new(out.len(), |i: int| out[i]@)
}

/// The decimal digit of a number below ten.
pub open spec fn digit(d: nat) -> char {
    if d == 0 {
        '0'
    } else if d == 1 {
        '1'
    } else if d == 2 {
        '2'
    } else if d == 3 {
        '3'
    } else if d == 4 {
        '4'
    } else if d == 5 {
        '5'
    } else if d == 6 {
        '6'
    } else if d == 7 {
        '7'
    } else if d == 8 {
        '8'
    } else {
        '9'
    }
}

/// A number in decimal digits.
pub open spec fn digits(n: nat) -> Seq<char>
    decreases n,
{
    if n < 10 {
        seq![digit(n)]
    } else {
        digits(n / 10).push(digit(n % 10))
    }
}

fn digit_text(d: usize) -> (r: &'static str)
    requires
        d < 10,
    ensures
        r@ == seq![digit(d as nat)],
{
    proof {
        reveal_strlit("0");
        reveal_strlit("1");
        reveal_strlit("2");
        reveal_strlit("3");
        reveal_strlit("4");
        reveal_strlit("5");
        reveal_strlit("6");
        reveal_strlit("7");
        reveal_strlit("8");
        reveal_strlit("9");
    }
    let r = if d == 0 {
        "0"
    } else if d == 1 {
        "1"
    } else if d == 2 {
        "2"
    } else if d == 3 {
        "3"
    } else if d == 4 {
        "4"
    } else if d == 5 {
        "5"
    } else if d == 6 {
        "6"
    } else if d == 7 {
        "7"
    } else if d == 8 {
        "8"
    } else {
        "9"
    };
    assert(r@ =~= seq![digit(d as nat)]);
    r
}

/// A number in decimal digits.
pub fn decimal(n: usize) -> (r: String)
    ensures
        r@ == digits(n as nat),
    decreases n,
{
    if n < 10 {
        String::from_str(digit_text(n))
    } else {
        let last = digit_text(n % 10);
        let r = decimal(n / 10).concat(last);
        assert(r@ =~= digits((n / 10) as nat).push(digit((n % 10) as nat)));
        r
    }
}

/// The items with a blank between each two of them.
pub open spec fn spaced(items: Seq<Seq<char>>) -> Seq<char>
    decreases items.len(),
{
    if items.len() == 0 {
        Seq::empty()
    } else if items.len() == 1 {
        items[0]
    } else {
        spaced(items.drop_last()).push(' ') + items.last()
    }
}

/// The items with a blank between each two of them.
pub fn join_with_spaces(items: &Vec<String>) -> (r: String)
    ensures
        r@ == spaced(texts(items@)),
{
    let mut r = String::new();
    let mut i: usize = 0;
    assert(texts(items@).take(0) =~= Seq::<Seq<char>>::empty());
    while i < items.len()
        invariant
            i <= items.len(),
            r@ == spaced(texts(items@).take(i as int)),
        decreases items.len() - i,
    {
        let ghost before = r@;
        proof {
            reveal_strlit(" ");
            let t = texts(items@);
            assert(t.take(i + 1).drop_last() =~= t.take(i as int));
            assert(t.take(i + 1).last() == items@[i as int]@);
            assert(t.take(i + 1)[0] == items@[0]@);
        }
        if i > 0 {
            r.append(" ");
            assert(r@ =~= before.push(' '));
        } else {
            assert(r@ + items@[0]@ =~= items@[0]@);
        }
        r.append(items[i].as_str());
        i += 1;
    }
    assert(texts(items@).take(items.len() as int) =~= texts(items@));
    r
}

/// A name and what belongs to it, on one line: the name, a colon, a blank,
/// and the rest.
pub open spec fn labelled(name: Seq<char>, rest: Seq<char>) -> Seq<char> {
    name.push(':').push(' ') + rest
}

fn label(name: &str, rest: &str) -> (r: String)
    ensures
        r@ == labelled(name@, rest@),
{
    proof {
        reveal_strlit(": ");
    }
    let r = String::from_str(name).concat(": ").concat(rest);
    assert(r@ =~= labelled(name@, rest@));
    r
}

/// The text of an optional name.
pub open spec fn name_view(name: Option<String>) -> Option<Seq<char>> {
    match name {
        Some(n) => Some(n@),
        None => None,
    }
}

/// Each item as a line of its own.
pub open spec fn lines_of(items: Seq<Seq<char>>) -> Seq<OutputView> {
    Seq::new(items.len(), |i: int| OutputView::Line(items[i]))
}

/// What is printed for one group of items under an optional name: their
/// number; or the name and each item on a line of its own; or the name with
/// the items behind it on one line; or, without a name, the items in columns.
pub open spec fn group_output(
    name: Option<Seq<char>>,
    items: Seq<Seq<char>>,
    show_count: bool,
    one_per_line: bool,
) -> Seq<OutputView> {
    if show_count {
        match name {
            Some(n) => seq![OutputView::Line(labelled(n, digits(items.len())))],
            None => seq![OutputView::Line(digits(items.len()))],
        }
    } else if one_per_line {
        match name {
            Some(n) => seq![OutputView::Line(n)] + lines_of(items),
            None => lines_of(items),
        }
    } else {
        match name {
            Some(n) => seq![OutputView::Line(labelled(n, spaced(items)))],
            None => seq![OutputView::Columns(items)],
        }
    }
}

fn print_group(
    out: &mut Vec<Output>,
    name: Option<&String>,
    items: &Vec<String>,
    show_count: bool,
    one_per_line: bool,
)
    ensures
        output_views(final(out)@) == output_views(old(out)@) + group_output(
            match name {
                Some(n) => Some(n@),
                None => None,
            },
            texts(items@),
            show_count,
            one_per_line,
        ),
{
    let ghost start = output_views(out@);
    if show_count {
        let count = decimal(items.len());
        let line = match name {
            Some(n) => label(n.as_str(), count.as_str()),
            None => count,
        };
        out.push(Output::Line(line));
        assert(output_views(out@) =~= start + seq![out@[out@.len() - 1]@]);
    } else if one_per_line {
        match name {
            Some(n) => {
                out.push(Output::Line(n.clone()));
                assert(output_views(out@) =~= start + seq![OutputView::Line(n@)]);
            },
            None => {
                assert(output_views(out@) =~= start + Seq::<OutputView>::empty());
            },
        }
        let ghost head = output_views(out@);
        let mut i: usize = 0;
        assert(head + lines_of(texts(items@).take(0)) =~= head);
        while i < items.len()
            invariant
                i <= items.len(),
                output_views(out@) == head + lines_of(texts(items@).take(i as int)),
            decreases items.len() - i,
        {
            let ghost before = output_views(out@);
            out.push(Output::Line(items[i].clone()));
            assert(output_views(out@) =~= before.push(OutputView::Line(items@[i as int]@)));
            assert(before.push(OutputView::Line(items@[i as int]@)) =~= head + lines_of(
                texts(items@).take(i + 1),
            ));
            i += 1;
        }
        assert(texts(items@).take(items.len() as int) =~= texts(items@));
        assert(head + lines_of(texts(items@)) =~= start + group_output(
            match name {
                Some(n) => Some(n@),
                None => None,
            },
            texts(items@),
            show_count,
            one_per_line,
        ));
    } else {
        match name {
            Some(n) => {
                let rest = join_with_spaces(items);
                out.push(Output::Line(label(n.as_str(), rest.as_str())));
            },
            None => {
                let mut copy: Vec<String> = Vec::new();
                let mut i: usize = 0;
                while i < items.len()
                    invariant
                        i <= items.len(),
                        texts(copy@) == texts(items@).take(i as int),
                    decreases items.len() - i,
                {
                    let ghost before = texts(copy@);
                    copy.push(items[i].clone());
                    assert(texts(copy@) =~= before.push(items@[i as int]@));
                    assert(before.push(items@[i as int]@) =~= texts(items@).take(i + 1));
                    i += 1;
                }
                assert(texts(items@).take(items.len() as int) =~= texts(items@));
                out.push(Output::Columns(copy));
            },
        }
        assert(output_views(out@) =~= start + seq![out@[out@.len() - 1]@]);
    }
}

/// Whether the names of the groups are printed: never, always, or, left to
/// itself, where there is more than one group or the output is no terminal.
pub open spec fn names_shown(mode: PrintNameMode, groups: nat, is_tty: bool) -> bool {
    mode != PrintNameMode::Never && (mode == PrintNameMode::Always || groups > 1 || !is_tty)
}

/// Whether the names of the groups are printed.
pub fn shows_names(mode: PrintNameMode, groups: usize, is_tty: bool) -> (r: bool)
    ensures
        r == names_shown(mode, groups as nat, is_tty),
{
    match mode {
        PrintNameMode::Never => false,
        PrintNameMode::Always => true,
        PrintNameMode::Auto => groups > 1 || !is_tty,
    }
}

/// What is printed for a group of tags that are used with a value.
pub open spec fn value_group_output(
    group: ValueTagGroup,
    with_name: bool,
    show_count: bool,
    one_per_line: bool,
) -> Seq<OutputView> {
    group_output(
        if with_name {
            name_view(group.value_name)
        } else {
            None
        },
        texts(group.tag_names@),
        show_count,
        one_per_line,
    )
}

/// An empty line behind each of several groups that are printed one item
/// per line.
pub open spec fn separator(several: bool, show_count: bool, one_per_line: bool) -> Seq<OutputView> {
    if several && !show_count && one_per_line {
        seq![OutputView::Line(Seq::empty())]
    } else {
        Seq::empty()
    }
}

/// What is printed for the first `n` of the groups.
pub open spec fn value_groups_output(
    groups: Seq<ValueTagGroup>,
    n: nat,
    with_names: bool,
    show_count: bool,
    one_per_line: bool,
) -> Seq<OutputView>
    decreases n,
{
    if n == 0 {
        Seq::empty()
    } else {
        value_groups_output(groups, (n - 1) as nat, with_names, show_count, one_per_line)
            + value_group_output(groups[n - 1], with_names, show_count, one_per_line) + separator(
            groups.len() > 1,
            show_count,
            one_per_line,
        )
    }
}

/// Adds to `out` what is printed for one group of tags that are used with
/// a value.
pub fn print_value_tag_group(
    out: &mut Vec<Output>,
    value_name: &Option<String>,
    tag_names: &Vec<String>,
    show_count: bool,
    one_per_line: bool,
)
    ensures
        output_views(final(out)@) == output_views(old(out)@) + group_output(
            name_view(*value_name),
            texts(tag_names@),
            show_count,
            one_per_line,
        ),
{
    match value_name {
        Some(n) => print_group(out, Some(n), tag_names, show_count, one_per_line),
        None => print_group(out, None, tag_names, show_count, one_per_line),
    }
}

fn separate(out: &mut Vec<Output>, several: bool, show_count: bool, one_per_line: bool)
    ensures
        output_views(final(out)@) == output_views(old(out)@) + separator(
            several,
            show_count,
            one_per_line,
        ),
{
    let ghost start = output_views(out@);
    if several && !show_count && one_per_line {
        out.push(Output::Line(String::new()));
        assert(output_views(out@) =~= start + seq![OutputView::Line(Seq::empty())]);
    } else {
        assert(output_views(out@) =~= start + Seq::<OutputView>::empty());
    }
}

/// What is printed for the groups of tags that are used with values.
pub fn print_value_tag_groups(
    groups: &Vec<ValueTagGroup>,
    name_mode: PrintNameMode,
    show_count: bool,
    one_per_line: bool,
    is_tty: bool,
) -> (out: Vec<Output>)
    ensures
        output_views(out@) == value_groups_output(
            groups@,
            groups.len() as nat,
            names_shown(name_mode, groups.len() as nat, is_tty),
            show_count,
            one_per_line,
        ),
{
    let mut out: Vec<Output> = Vec::new();
    let with_names = shows_names(name_mode, groups.len(), is_tty);
    let none: Option<String> = None;
    let mut i: usize = 0;
    assert(output_views(out@) =~= Seq::<OutputView>::empty());
    while i < groups.len()
        invariant
            i <= groups.len(),
            none.is_none(),
            output_views(out@) == value_groups_output(
                groups@,
                i as nat,
                with_names,
                show_count,
                one_per_line,
            ),
        decreases groups.len() - i,
    {
        let group = &groups[i];
        if with_names {
            print_value_tag_group(
                &mut out,
                &group.value_name,
                &group.tag_names,
                show_count,
                one_per_line,
            );
        } else {
            print_value_tag_group(&mut out, &none, &group.tag_names, show_count, one_per_line);
        }
        separate(&mut out, groups.len() > 1, show_count, one_per_line);
        i += 1;
    }
    out
}

/// How a tag is shown where colours are used.
#[derive(Debug, Clone, Copy, PartialEq, Eq, Structural)]
pub enum Shade {
    /// As it is: an applied tag.
    Plain,
    /// In cyan: an implied tag.
    Cyan,
    /// In yellow: a tag that is both applied and implied.
    Yellow,
}

/// How a tag with these flags is shown.
pub open spec fn shade_of(explicit: bool, implicit: bool, use_colors: bool) -> Shade {
    if use_colors && implicit {
        if explicit {
            Shade::Yellow
        } else {
            Shade::Cyan
        }
    } else {
        Shade::Plain
    }
}

/// The text in a shade: as it is for `Plain`, else between the escape
/// sequence that sets the foreground colour (33 for yellow, 36 for cyan)
/// and the one that resets the terminal.
pub open spec fn painted(shade: Shade, text: Seq<char>) -> Seq<char> {
    match shade {
        Shade::Plain => text,
        Shade::Cyan => seq!['\x1b', '[', '3', '6', 'm'] + text + seq!['\x1b', '[', '0', 'm'],
        Shade::Yellow => seq!['\x1b', '[', '3', '3', 'm'] + text + seq!['\x1b', '[', '0', 'm'],
    }
}

/// Calls `ansi_term`'s `Style::paint` and formats what it returns. A style
/// without colour writes the text as it is; a style with a foreground
/// colour writes `ESC [`, the colour's code and `m` before the text, and
/// the reset sequence `ESC [ 0 m` behind it.
#[verifier::external_body]
fn paint(shade: Shade, text: &str) -> (r: String)
    ensures
        r@ == painted(shade, text@),
{
    let style = match shade {
        Shade::Plain => Style::default(),
        Shade::Cyan => Colour::Cyan.normal(),
        Shade::Yellow => Colour::Yellow.normal(),
    };
    style.paint(text).to_string()
}

/// A tag as it is shown: its name, and behind an equals sign its value
/// where it has one, each in the shade of the tag.
pub open spec fn tag_shown(tag: TagData, use_colors: bool) -> Seq<char> {
    let shade = shade_of(tag.explicit, tag.implicit, use_colors);
    match tag.value_name {
        None => painted(shade, tag.tag_name@),
        Some(value) => painted(shade, tag.tag_name@).push('=') + painted(shade, value@),
    }
}

/// A tag as it is shown.
pub fn format_tag_data(tag_data: &TagData, use_colors: bool) -> (r: String)
    ensures
        r@ == tag_shown(*tag_data, use_colors),
{
    let shade = if use_colors && tag_data.implicit {
        if tag_data.explicit {
            Shade::Yellow
        } else {
            Shade::Cyan
        }
    } else {
        Shade::Plain
    };
    match &tag_data.value_name {
        None => paint(shade, tag_data.tag_name.as_str()),
        Some(value) => {
            proof {
                reveal_strlit("=");
            }
            let name = paint(shade, tag_data.tag_name.as_str());
            let shown = paint(shade, value.as_str());
            let r = name.concat("=").concat(shown.as_str());
            assert(r@ =~= tag_shown(*tag_data, use_colors));
            r
        },
    }
}

/// The tags as they are shown, one for one.
pub open spec fn tags_shown(tags: Seq<TagData>, use_colors: bool) -> Seq<Seq<char>> {
    Seq::new(tags.len(), |i: int| tag_shown(tags[i], use_colors))
}

fn format_tags(tags: &Vec<TagData>, use_colors: bool) -> (r: Vec<String>)
    ensures
        texts(r@) == tags_shown(tags@, use_colors),
{
    let mut r: Vec<String> = Vec::new();
    let mut i: usize = 0;
    while i < tags.len()
        invariant
            i <= tags.len(),
            r.len() == i,
            forall|k: int| 0 <= k < i ==> (#[trigger] r@[k])@ == tag_shown(tags@[k], use_colors),
        decreases tags.len() - i,
    {
        r.push(format_tag_data(&tags[i], use_colors));
        i += 1;
    }
    assert(texts(r@) =~= tags_shown(tags@, use_colors));
    r
}

/// What is printed for the tags of a file.
pub open spec fn file_group_output(
    group: FileTagGroup,
    with_name: bool,
    show_count: bool,
    one_per_line: bool,
    use_colors: bool,
) -> Seq<OutputView> {
    group_output(
        if with_name {
            Some(group.path@)
        } else {
            None
        },
        tags_shown(group.tags@, use_colors),
        show_count,
        one_per_line,
    )
}

/// What is printed for the first `n` of the groups.
pub open spec fn file_groups_output(
    groups: Seq<FileTagGroup>,
    n: nat,
    with_names: bool,
    show_count: bool,
    one_per_line: bool,
    use_colors: bool,
) -> Seq<OutputView>
    decreases n,
{
    if n == 0 {
        Seq::empty()
    } else {
        file_groups_output(
            groups,
            (n - 1) as nat,
            with_names,
            show_count,
            one_per_line,
            use_colors,
        ) + file_group_output(groups[n - 1], with_names, show_count, one_per_line, use_colors)
            + separator(groups.len() > 1, show_count, one_per_line)
    }
}

/// Adds to `out` what is printed for the tags of one file.
pub fn print_file_tag_group(
    out: &mut Vec<Output>,
    file_path: Option<&String>,
    tags: &Vec<TagData>,
    show_count: bool,
    one_per_line: bool,
    use_colors: bool,
)
    ensures
        output_views(final(out)@) == output_views(old(out)@) + group_output(
            match file_path {
                Some(p) => Some(p@),
                None => None,
            },
            tags_shown(tags@, use_colors),
            show_count,
            one_per_line,
        ),
{
    let formatted = format_tags(tags, use_colors);
    print_group(out, file_path, &formatted, show_count, one_per_line);
}

/// What is printed for the tags of the files.
pub fn print_file_tag_groups(
    groups: &Vec<FileTagGroup>,
    name_mode: PrintNameMode,
    show_count: bool,
    one_per_line: bool,
    use_colors: bool,
    is_tty: bool,
) -> (out: Vec<Output>)
    ensures
        output_views(out@) == file_groups_output(
            groups@,
            groups.len() as nat,
            names_shown(name_mode, groups.len() as nat, is_tty),
            show_count,
            one_per_line,
            use_colors,
        ),
{
    let mut out: Vec<Output> = Vec::new();
    let with_names = shows_names(name_mode, groups.len(), is_tty);
    let mut i: usize = 0;
    assert(output_views(out@) =~= Seq::<OutputView>::empty());
    while i < groups.len()
        invariant
            i <= groups.len(),
            output_views(out@) == file_groups_output(
                groups@,
                i as nat,
                with_names,
                show_count,
                one_per_line,
                use_colors,
            ),
        decreases groups.len() - i,
    {
        let group = &groups[i];
        if with_names {
            print_file_tag_group(
                &mut out,
                Some(&group.path),
                &group.tags,
                show_count,
                one_per_line,
                use_colors,
            );
        } else {
            print_file_tag_group(&mut out, None, &group.tags, show_count, one_per_line, use_colors);
        }
        separate(&mut out, groups.len() > 1, show_count, one_per_line);
        i += 1;
    }
    out
}

/// The options of the `tags` command.
#[derive(Debug)]
pub struct TagsOptions {
    /// Lists the number of tags rather than their names.
    pub show_count: bool,
    /// Lists one tag per line.
    pub one_per_line: bool,
    /// Do not show implied tags.
    pub explicit: bool,
    /// When to print the file or value name.
    pub name_mode: PrintNameMode,
    /// Do not follow symlinks (show tags for the symlink itself).
    pub no_dereference: bool,
    /// Show which tags are used with these values.
    pub value_names: Vec<String>,
    /// File paths.
    pub paths: Vec<String>,
}

/// What the `tags` command lists.
#[derive(Debug, Clone, Copy, PartialEq, Eq, Structural)]
pub enum Listing {
    /// The tags that are used with the values named.
    ForValues,
    /// The tags of the files named.
    ForPaths,
    /// All tags.
    All,
}

/// The rows of a store, as they were read in one transaction.
pub struct Tables {
    pub tags: Vec<Tag>,
    pub values: Vec<Value>,
    pub files: Vec<File>,
    pub file_tags: Vec<FileTag>,
    pub implications: Vec<Implication>,
}

/// `groups` is all tags as one group without a value.
pub open spec fn lists_all(groups: Seq<ValueTagGroup>, tags: Seq<Tag>) -> bool {
    &&& groups.len() == 1
    &&& groups[0].value_name.is_none()
    &&& texts(groups[0].tag_names@) == names_of(tags)
}

/// The store holds each of the values named, and every tag that is used
/// with one of them.
pub open spec fn values_listable(names: Seq<String>, tables: Tables) -> bool {
    forall|i: int|
        0 <= i < names.len() ==> has_group(
            (#[trigger] names[i])@,
            tables.tags@,
            tables.values@,
            tables.file_tags@,
        )
}

/// `groups` are the groups of the values named, one for one.
pub open spec fn lists_values(groups: Seq<ValueTagGroup>, names: Seq<String>, tables: Tables) -> bool {
    &&& groups.len() == names.len()
    &&& forall|i: int|
        0 <= i < names.len() ==> is_group_of(
            #[trigger] groups[i],
            names[i]@,
            tables.tags@,
            tables.values@,
            tables.file_tags@,
        )
}

impl TagsOptions {
    /// What the command prints: the output of the groups that it lists, or
    /// `NotFound` where the store lacks a name that the listing needs.
    pub open spec fn prints(
        &self,
        tables: Tables,
        resolved: Seq<ResolvedPath>,
        use_colors: bool,
        is_tty: bool,
        r: Result<Vec<Output>, ErrorKind>,
    ) -> bool {
        &&& r.is_err() ==> r.unwrap_err() == ErrorKind::NotFound
        &&& match self.listing() {
            Listing::All => r.is_ok() && exists|groups: Seq<ValueTagGroup>| #[trigger]
                lists_all(groups, tables.tags@) && output_views(r.unwrap()@)
                    == value_groups_output(
                    groups,
                    groups.len(),
                    names_shown(self.name_mode, groups.len(), is_tty),
                    self.show_count,
                    self.one_per_line,
                ),
            Listing::ForValues => r.is_ok() == values_listable(self.value_names@, tables) && (
            r.is_ok() ==> exists|groups: Seq<ValueTagGroup>| #[trigger]
                lists_values(groups, self.value_names@, tables) && output_views(r.unwrap()@)
                    == value_groups_output(
                    groups,
                    groups.len(),
                    names_shown(self.name_mode, groups.len(), is_tty),
                    self.show_count,
                    self.one_per_line,
                )),
            Listing::ForPaths => r.is_ok() == paths_listable(
                resolved,
                tables.files@,
                tables.file_tags@,
                tables.implications@,
                tables.tags@,
                tables.values@,
            ) && (r.is_ok() ==> exists|groups: Seq<FileTagGroup>| #[trigger]
                groups_of_paths(
                    groups,
                    resolved,
                    tables.files@,
                    tables.file_tags@,
                    tables.implications@,
                    tables.tags@,
                    tables.values@,
                ) && output_views(r.unwrap()@) == file_groups_output(
                    groups,
                    groups.len(),
                    names_shown(self.name_mode, groups.len(), is_tty),
                    self.show_count,
                    self.one_per_line,
                    use_colors,
                )),
        }
    }

    /// What is listed: values come before paths, and without either all
    /// tags are listed.
    pub open spec fn listing(&self) -> Listing {
        if self.value_names.len() > 0 {
            Listing::ForValues
        } else if self.paths.len() > 0 {
            Listing::ForPaths
        } else {
            Listing::All
        }
    }

    /// What is listed.
    pub fn lists(&self) -> (r: Listing)
        ensures
            r == self.listing(),
    {
        if self.value_names.len() > 0 {
            Listing::ForValues
        } else if self.paths.len() > 0 {
            Listing::ForPaths
        } else {
            Listing::All
        }
    }

    /// What the command prints for the rows of a store: the tags of the
    /// values named, else those of the paths, as they were resolved, else
    /// all tags.
    pub fn execute(
        &self,
        tables: &Tables,
        resolved: &Vec<ResolvedPath>,
        use_colors: bool,
        is_tty: bool,
    ) -> (r: Result<Vec<Output>, ErrorKind>)
        requires
            forall|i: int|
                0 <= i < resolved.len() ==> !ends_in_parent_dir(
                    (#[trigger] resolved[i]).scoped.inner(),
                ),
        ensures
            self.prints(*tables, resolved@, use_colors, is_tty, r),
    {
        match self.lists() {
            Listing::ForValues => {
                match list_tags_for_values(
                    &self.value_names,
                    &tables.tags,
                    &tables.values,
                    &tables.file_tags,
                ) {
                    Ok(groups) => {
                        let out = print_value_tag_groups(
                            &groups,
                            self.name_mode,
                            self.show_count,
                            self.one_per_line,
                            is_tty,
                        );
                        assert(lists_values(groups@, self.value_names@, *tables));
                        Ok(out)
                    },
                    Err(e) => Err(e),
                }
            },
            Listing::ForPaths => {
                match list_tags_for_paths(
                    resolved,
                    &tables.files,
                    &tables.file_tags,
                    &tables.implications,
                    &tables.tags,
                    &tables.values,
                ) {
                    Ok(groups) => {
                        let out = print_file_tag_groups(
                            &groups,
                            self.name_mode,
                            self.show_count,
                            self.one_per_line,
                            use_colors,
                            is_tty,
                        );
                        assert(groups_of_paths(
                            groups@,
                            resolved@,
                            tables.files@,
                            tables.file_tags@,
                            tables.implications@,
                            tables.tags@,
                            tables.values@,
                        ));
                        Ok(out)
                    },
                    Err(e) => Err(e),
                }
            },
            Listing::All => {
                let groups = list_all_tags(&tables.tags);
                let out = print_value_tag_groups(
                    &groups,
                    self.name_mode,
                    self.show_count,
                    self.one_per_line,
                    is_tty,
                );
                assert(lists_all(groups@, tables.tags@));
                Ok(out)
            },
        }
    }
}

} // verus!
