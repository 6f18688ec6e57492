//! How the log and the channel list are laid out on a terminal of a given size.

use vstd::prelude::*;
use vstd::utf8::is_char_boundary;

use crate::model::LogEntryId;
use crate::text::{bytes_of, chars_of};

verus! {

broadcast use vstd::string::group_string_axioms;

/// Whether `": "` stands at byte `i`.
pub open spec fn marker_at(text: Seq<u8>, i: int) -> bool {
    0 <= i && i + 1 < text.len() && text[i] == 0x3a && text[i + 1] == 0x20
}

/// How far the second and later rows of an entry are indented: to just behind the
/// first `": "`, in bytes, or not at all.
pub open spec fn is_indent(text: Seq<u8>, indent: int) -> bool {
    if exists|i: int| marker_at(text, i) {
        marker_at(text, indent - 2) && forall|j: int| 0 <= j < indent - 2 ==> !marker_at(text, j)
    } else {
        indent == 0
    }
}

/// The indentation of an entry; exactly one number satisfies [`is_indent`].
pub open spec fn indent_of(text: Seq<u8>) -> int {
    choose|indent: int| is_indent(text, indent)
}

/// There is one indentation for each text.
pub proof fn lemma_indent_unique(text: Seq<u8>, a: int, b: int)
    requires
        is_indent(text, a),
        is_indent(text, b),
    ensures
        a == b,
{
}

/// Finds the indentation of an entry.
fn find_indent(text: &[u8]) -> (res: usize)
    ensures
        is_indent(text@, res as int),
        res == indent_of(text@),
        res <= text@.len(),
{
    let mut i: usize = 0;
    while i < text.len() && i + 1 < text.len()
        invariant
            0 <= i <= text@.len(),
            forall|j: int| 0 <= j < i ==> !marker_at(text@, j),
        decreases text@.len() - i,
    {
        if text[i] == 0x3a && text[i + 1] == 0x20 {
            proof {
                assert(marker_at(text@, i as int));
                assert(is_indent(text@, i + 2));
                lemma_indent_unique(text@, i + 2, indent_of(text@));
            }
            return i + 2;
        }
        i = i + 1;
    }
    proof {
        assert forall|j: int| !marker_at(text@, j) by {}
        assert(is_indent(text@, 0));
    }
    0
}

/// Where the first newline stands, if there is one.
pub open spec fn first_newline(text: Seq<u8>) -> Option<int>
    decreases text.len(),
{
    if text.len() == 0 {
        None
    } else if text[0] == 0x0a {
        Some(0)
    } else {
        match first_newline(text.skip(1)) {
            Some(n) => Some(n + 1),
            None => None,
        }
    }
}

/// [`first_newline`] gives the least position of a newline.
pub proof fn lemma_first_newline(text: Seq<u8>)
    ensures
        match first_newline(text) {
            Some(n) => 0 <= n < text.len() && text[n] == 0x0a && forall|j: int|
                0 <= j < n ==> text[j] != 0x0a,
            None => forall|j: int| 0 <= j < text.len() ==> text[j] != 0x0a,
        },
    decreases text.len(),
{
    if text.len() > 0 && text[0] != 0x0a {
        lemma_first_newline(text.skip(1));
        assert forall|j: int| 1 <= j < text.len() implies text[j] == text.skip(1)[j - 1] by {}
    }
}

fn find_newline(text: &[u8]) -> (res: Option<usize>)
    ensures
        match (res, first_newline(text@)) {
            (Some(n), Some(m)) => n == m && n < text@.len() && text@[n as int] == 0x0a,
            (None, None) => true,
            _ => false,
        },
{
    proof {
        lemma_first_newline(text@);
    }
    let mut i: usize = 0;
    while i < text.len()
        invariant
            i <= text@.len(),
            forall|j: int| 0 <= j < i ==> text@[j] != 0x0a,
            match first_newline(text@) {
                Some(n) => 0 <= n < text@.len() && text@[n] == 0x0a && forall|j: int|
                    0 <= j < n ==> text@[j] != 0x0a,
                None => forall|j: int| 0 <= j < text@.len() ==> text@[j] != 0x0a,
            },
        decreases text@.len() - i,
    {
        if text[i] == 0x0a {
            return Some(i);
        }
        i = i + 1;
    }
    None
}

/// How often an entry goes on to another line behind column `i`: at a newline, and at
/// the character that stands at the right edge. Neither character takes up a column.
pub open spec fn breaks(text: Seq<char>, i: int, indent: int, columns: int) -> nat
    decreases text.len(),
{
    if text.len() == 0 {
        0
    } else if (i != 0 && i == columns) || text[0] == '\n' {
        1 + breaks(text.drop_first(), indent, indent, columns)
    } else {
        breaks(text.drop_first(), i + 1, indent, columns)
    }
}

/// How many lines an entry is counted for.
pub open spec fn entry_lines(text: Seq<char>, columns: int) -> nat {
    1 + breaks(text, 0, indent_of(bytes_of(text)), columns)
}

/// How many lines the entries of a log are counted for.
pub open spec fn log_lines(log: Seq<(String, LogEntryId)>, columns: int) -> nat
    decreases log.len(),
{
    if log.len() == 0 {
        0
    } else {
        entry_lines(log[0].0@, columns) + log_lines(log.drop_first(), columns)
    }
}

/// Counts the lines of one entry, giving up above `limit`.
fn count_entry(text: &str, columns: u16, limit: u32) -> (res: Option<u32>)
    requires
        limit < u32::MAX,
    ensures
        match res {
            Some(n) => n == entry_lines(text@, columns as int) && n <= limit,
            None => entry_lines(text@, columns as int) > limit,
        },
{
    let indent = find_indent(text.as_bytes());
    let chars = chars_of(text);
    let mut lines: u32 = 1;
    let mut i: u128 = 0;
    let mut k: usize = 0;
    assert(text@.skip(0) =~= text@);
    while k < chars.len()
        invariant
            chars@ == text@,
            0 <= k <= chars@.len(),
            indent == indent_of(bytes_of(text@)),
            i <= indent + k,
            1 <= lines <= limit + 1,
            limit < u32::MAX,
            entry_lines(text@, columns as int) == lines + breaks(
                text@.skip(k as int),
                i as int,
                indent as int,
                columns as int,
            ),
        decreases chars@.len() - k,
    {
        if lines > limit {
            return None;
        }
        let ghost rest = text@.skip(k as int);
        assert(rest.drop_first() =~= text@.skip(k + 1));
        if (i != 0 && i == columns as u128) || chars[k] == '\n' {
            i = indent as u128;
            lines = lines + 1;
        } else {
            i = i + 1;
        }
        k = k + 1;
    }
    if lines > limit {
        None
    } else {
        Some(lines)
    }
}

/// Whether the entries from `from` on are counted for at most `limit` lines.
fn fits(log: &Vec<(String, LogEntryId)>, from: usize, columns: u16, limit: u16) -> (res: bool)
    requires
        from <= log@.len(),
    ensures
        res == (log_lines(log@.skip(from as int), columns as int) <= limit),
{
    let mut left: u32 = limit as u32;
    let mut k: usize = from;
    while k < log.len()
        invariant
            from <= k <= log@.len(),
            left <= limit,
            log_lines(log@.skip(from as int), columns as int) == limit - left + log_lines(
                log@.skip(k as int),
                columns as int,
            ),
        decreases log@.len() - k,
    {
        assert(log@.skip(k as int).drop_first() =~= log@.skip(k + 1));
        match count_entry(log[k].0.as_str(), columns, left) {
            Some(n) => {
                left = left - n;
            },
            None => {
                return false;
            },
        }
        k = k + 1;
    }
    true
}

/// Whether `from` is the first entry shown: the oldest one from which on all entries
/// together are counted for at most `lines` lines.
pub open spec fn is_first_shown(
    log: Seq<(String, LogEntryId)>,
    from: int,
    columns: int,
    lines: int,
) -> bool {
    &&& 0 <= from <= log.len()
    &&& log_lines(log.skip(from), columns) <= lines
    &&& forall|j: int| 0 <= j < from ==> log_lines(#[trigger] log.skip(j), columns) > lines
}

fn first_shown(log: &Vec<(String, LogEntryId)>, columns: u16, lines: u16) -> (res: usize)
    ensures
        is_first_shown(log@, res as int, columns as int, lines as int),
{
    let mut from: usize = 0;
    while from < log.len() && !fits(log, from, columns, lines)
        invariant
            from <= log@.len(),
            forall|j: int|
                0 <= j < from ==> log_lines(#[trigger] log@.skip(j), columns as int) > lines,
        decreases log@.len() - from,
    {
        from = from + 1;
    }
    from
}

/// What stands in the side column next to a row.
#[derive(Debug, PartialEq, Eq)]
pub struct Side {
    /// How many columns to move right from the end of the row.
    pub right: u16,
    /// What to write there.
    pub text: String,
    /// Whether an ellipsis follows.
    pub ellipsis: bool,
}

/// One row of the screen.
#[derive(Debug, PartialEq, Eq)]
pub struct Row {
    /// How many spaces stand before the text.
    pub indent: usize,
    /// The part of the entry that the row shows.
    pub text: String,
    /// Whether the text is shown as being on its way.
    pub sending: bool,
    /// What the side column shows.
    pub side: Option<Side>,
}

/// What a [`Side`] shows, its text in UTF-8.
pub ghost struct SideView {
    pub right: int,
    pub text: Seq<u8>,
    pub ellipsis: bool,
}

/// What a [`Row`] shows, its text in UTF-8.
pub ghost struct RowView {
    pub indent: int,
    pub text: Seq<u8>,
    pub sending: bool,
    pub side: Option<SideView>,
}

impl View for Side {
    type V = SideView;

    open spec fn view(&self) -> SideView {
        SideView { right: self.right as int, text: bytes_of(self.text@), ellipsis: self.ellipsis }
    }
}

impl View for Row {
    type V = RowView;

    open spec fn view(&self) -> RowView {
        RowView {
            indent: self.indent as int,
            text: bytes_of(self.text@),
            sending: self.sending,
            side: match self.side {
                Some(side) => Some(side@),
                None => None,
            },
        }
    }
}

/// What a run of rows shows.
pub open spec fn rows_view(rows: Seq<Row>) -> Seq<RowView> {
    rows.map_values(|row: Row| row@)
}

/// How many bytes of `text` go into a row that starts in column `pad`: up to the right
/// edge, the first newline or the end of the text.
pub open spec fn row_width(text: Seq<u8>, pad: int, columns: int) -> int {
    let room = if columns > pad { columns - pad } else { 0 };
    let width = if room <= text.len() { room } else { text.len() as int };
    match first_newline(text) {
        Some(n) => if n <= width { n } else { width },
        None => width,
    }
}

/// The rows of what is left of an entry. With `skip`, the text starts with the newline
/// that ended the row before; the first row of an entry is not indented.
pub open spec fn text_rows(
    text: Seq<u8>,
    skip: bool,
    first: bool,
    indent: int,
    columns: int,
    sending: bool,
) -> Seq<RowView>
    decreases 2 * text.len() - (if skip { 1int } else { 0 }),
{
    if text.len() == 0 {
        seq![]
    } else {
        let rest = if skip { text.skip(1) } else { text };
        let pad = if first { 0 } else { indent };
        let width = row_width(rest, pad, columns);
        let ended = first_newline(rest) == Some(width);
        let row = RowView { indent: pad, text: rest.take(width), sending, side: None };
        if skip || width > 0 || ended {
            proof {
                lemma_first_newline(rest);
            }
            seq![row] + text_rows(rest.skip(width), ended, false, indent, columns, sending)
        } else {
            seq![row]
        }
    }
}

/// Whether [`text_rows`] covers the whole text and never cuts a character in two.
pub open spec fn text_fits(
    text: Seq<u8>,
    skip: bool,
    first: bool,
    indent: int,
    columns: int,
) -> bool
    decreases 2 * text.len() - (if skip { 1int } else { 0 }),
{
    if text.len() == 0 {
        true
    } else {
        let rest = if skip { text.skip(1) } else { text };
        let width = row_width(rest, if first { 0 } else { indent }, columns);
        let ended = first_newline(rest) == Some(width);
        if is_char_boundary(rest, width) && (skip || width > 0 || ended) {
            proof {
                lemma_first_newline(rest);
            }
            text_fits(rest.skip(width), ended, false, indent, columns)
        } else {
            false
        }
    }
}

proof fn lemma_empty_text(text: Seq<char>)
    ensures
        text.len() == 0 <==> bytes_of(text).len() == 0,
{
    if text.len() > 0 {
        vstd::utf8::encode_utf8_first_scalar(text);
        vstd::utf8::encode_utf8_valid_utf8(text);
        vstd::utf8::encode_utf8_decode_utf8(text);
    }
}

/// Behind a leading newline a text can be cut.
proof fn lemma_boundary_behind_newline(text: Seq<char>)
    requires
        bytes_of(text).len() > 0,
        bytes_of(text)[0] == 0x0a,
    ensures
        is_char_boundary(bytes_of(text), 1),
{
    vstd::utf8::encode_utf8_valid_utf8(text);
    reveal_with_fuel(is_char_boundary, 2);
}

/// The rows of an entry, or `None` where [`text_fits`] does not hold.
fn rows_of_text(text: &str, indent: usize, columns: u16, sending: bool) -> (res: Option<Vec<Row>>)
    ensures
        match res {
            Some(rows) => text_fits(bytes_of(text@), false, true, indent as int, columns as int)
                && rows_view(rows@) == text_rows(
                bytes_of(text@),
                false,
                true,
                indent as int,
                columns as int,
                sending,
            ),
            None => !text_fits(bytes_of(text@), false, true, indent as int, columns as int),
        },
{
    let mut rows: Vec<Row> = Vec::new();
    let mut rest: &str = text;
    let mut skip: bool = false;
    let mut first: bool = true;
    let ghost c = columns as int;
    assert(rows_view(rows@) =~= seq![]);
    proof {
        lemma_empty_text(rest@);
    }
    while !rest.is_empty()
        invariant
            c == columns as int,
            skip ==> bytes_of(rest@).len() > 0 && bytes_of(rest@)[0] == 0x0a,
            bytes_of(rest@).len() == 0 <==> rest@.len() == 0,
            text_fits(bytes_of(text@), false, true, indent as int, c) == text_fits(
                bytes_of(rest@),
                skip,
                first,
                indent as int,
                c,
            ),
            text_rows(bytes_of(text@), false, true, indent as int, c, sending) == rows_view(rows@)
                + text_rows(bytes_of(rest@), skip, first, indent as int, c, sending),
        decreases 2 * bytes_of(rest@).len() - (if skip { 1int } else { 0 }),
    {
        let ghost before = bytes_of(rest@);
        let ghost was_skip = skip;
        if skip {
            proof {
                lemma_boundary_behind_newline(rest@);
            }
            rest = rest.split_at(1).1;
        }
        let ghost line = bytes_of(rest@);
        assert(line =~= if was_skip { before.skip(1) } else { before });
        let bytes = rest.as_bytes();
        let pad: usize = if first { 0 } else { indent };
        let room: usize = (columns as usize).saturating_sub(pad);
        let mut width: usize = if room <= bytes.len() { room } else { bytes.len() };
        let newline = find_newline(bytes);
        let mut ended: bool = false;
        if let Some(n) = newline {
            if n <= width {
                width = n;
                ended = true;
            }
        }
        assert(width == row_width(line, pad as int, c));
        assert(ended == (first_newline(line) == Some(width as int)));
        if !rest.is_char_boundary(width) {
            return None;
        }
        if !(skip || width > 0 || ended) {
            return None;
        }
        let (head, tail) = rest.split_at(width);
        let row = Row { indent: pad, text: head.to_owned(), sending, side: None };
        let ghost old_rows = rows@;
        rows.push(row);
        rest = tail;
        skip = ended;
        first = false;
        proof {
            lemma_empty_text(rest@);
            assert(bytes_of(rest@) =~= line.skip(width as int));
            assert(bytes_of(row.text@) =~= line.take(width as int));
            assert(rows_view(rows@) =~= rows_view(old_rows).push(row@));
        }
    }
    Some(rows)
}

/// Whether an entry can be drawn: no row cuts a character in two, and there is room for
/// what is left of the entry.
pub open spec fn entry_fits(text: Seq<char>, columns: int) -> bool {
    text_fits(bytes_of(text), false, true, indent_of(bytes_of(text)), columns)
}

/// The rows of an entry. An empty entry takes one row.
pub open spec fn entry_rows(text: Seq<char>, id: LogEntryId, columns: int) -> Seq<RowView> {
    if text.len() == 0 {
        seq![RowView { indent: 0, text: seq![], sending: false, side: None }]
    } else {
        text_rows(
            bytes_of(text),
            false,
            true,
            indent_of(bytes_of(text)),
            columns,
            id == LogEntryId::Sending,
        )
    }
}

/// The rows of a log, the oldest entry first.
pub open spec fn log_rows(log: Seq<(String, LogEntryId)>, columns: int) -> Seq<RowView>
    decreases log.len(),
{
    if log.len() == 0 {
        seq![]
    } else {
        log_rows(log.drop_last(), columns) + entry_rows(log.last().0@, log.last().1, columns)
    }
}

/// Whether every entry of a log can be drawn.
pub open spec fn log_fits(log: Seq<(String, LogEntryId)>, columns: int) -> bool {
    forall|k: int| 0 <= k < log.len() ==> entry_fits((#[trigger] log[k]).0@, columns)
}

/// The rows of the entries from `from` on, or `None` where one of them cannot be drawn.
fn rows_of_log(log: &Vec<(String, LogEntryId)>, from: usize, columns: u16) -> (res: Option<
    Vec<Row>,
>)
    requires
        from <= log@.len(),
    ensures
        match res {
            Some(rows) => log_fits(log@.skip(from as int), columns as int) && rows_view(rows@)
                == log_rows(log@.skip(from as int), columns as int),
            None => !log_fits(log@.skip(from as int), columns as int),
        },
{
    let ghost shown = log@.skip(from as int);
    let ghost c = columns as int;
    let mut rows: Vec<Row> = Vec::new();
    let mut k: usize = from;
    assert(rows_view(rows@) =~= log_rows(shown.take(0), c));
    while k < log.len()
        invariant
            from <= k <= log@.len(),
            shown == log@.skip(from as int),
            c == columns as int,
            forall|j: int| 0 <= j < k - from ==> entry_fits((#[trigger] shown[j]).0@, c),
            rows_view(rows@) == log_rows(shown.take(k - from), c),
        decreases log@.len() - k,
    {
        let text = log[k].0.as_str();
        let ghost at = k - from;
        assert(shown[at] == log@[k as int]);
        assert(shown.take(at + 1).drop_last() =~= shown.take(at));
        let ghost old_rows = rows@;
        proof {
            lemma_empty_text(text@);
        }
        if text.is_empty() {
            let row = Row { indent: 0, text: String::new(), sending: false, side: None };
            rows.push(row);
            proof {
                lemma_empty_text(row.text@);
                assert(bytes_of(row.text@) =~= seq![]);
                assert(rows_view(rows@) =~= rows_view(old_rows).push(row@));
            }
        } else {
            let indent = find_indent(text.as_bytes());
            let sending: bool = match log[k].1 {
                LogEntryId::Sending => true,
                _ => false,
            };
            match rows_of_text(text, indent, columns, sending) {
                Some(more) => {
                    let mut more = more;
                    let ghost added = more@;
                    rows.append(&mut more);
                    assert(rows_view(rows@) =~= rows_view(old_rows) + rows_view(added));
                },
                None => {
                    assert(!entry_fits(shown[at].0@, c));
                    return None;
                },
            }
        }
        k = k + 1;
    }
    assert(shown.take(shown.len() as int) =~= shown);
    Some(rows)
}

/// The number of columns left for the log, beside the side column.
pub open spec fn columns_of(width: int) -> int {
    if width > 13 {
        width - 13
    } else {
        0
    }
}

/// The number of lines left for the log, above the prompt.
pub open spec fn lines_of(height: int) -> int {
    if height > 3 {
        height - 3
    } else {
        0
    }
}

/// In which column a row ends, as the terminal counts columns.
pub open spec fn row_end(row: RowView) -> int {
    (row.indent + row.text.len()) % 0x10000
}

/// What the side column shows of a label: all of it up to eleven bytes, else the first
/// ten and an ellipsis.
pub open spec fn side_view(label: Seq<char>, row: RowView, columns: int) -> SideView {
    let bytes = bytes_of(label);
    SideView {
        right: columns + 2 - row_end(row),
        text: if bytes.len() > 11 { bytes.take(10) } else { bytes },
        ellipsis: bytes.len() > 11,
    }
}

/// Whether a label can be drawn next to a row: the row does not reach into the side
/// column, and cutting the label does not cut a character in two.
pub open spec fn side_fits(label: Seq<char>, row: RowView, columns: int) -> bool {
    &&& row_end(row) <= columns + 2
    &&& bytes_of(label).len() > 11 ==> is_char_boundary(bytes_of(label), 10)
}

/// Rows with the labels of the side column next to them, from the top.
pub open spec fn with_sides(rows: Seq<RowView>, labels: Seq<String>, columns: int) -> Seq<RowView> {
    Seq::new(
        rows.len(),
        |k: int|
            if k < labels.len() {
                RowView { side: Some(side_view(labels[k]@, rows[k], columns)), ..rows[k] }
            } else {
                rows[k]
            },
    )
}

/// Whether every label that has a row next to it can be drawn there.
pub open spec fn sides_fit(rows: Seq<RowView>, labels: Seq<String>, columns: int) -> bool {
    forall|k: int|
        0 <= k < rows.len() && k < labels.len() ==> side_fits(
            (#[trigger] labels[k])@,
            rows[k],
            columns,
        )
}

/// The side column next to a row, or `None` where it cannot be drawn.
fn side_of(label: &str, row: &Row, columns: u16) -> (res: Option<Side>)
    requires
        columns <= u16::MAX - 13,
    ensures
        match res {
            Some(side) => side_fits(label@, row@, columns as int) && side@ == side_view(
                label@,
                row@,
                columns as int,
            ),
            None => !side_fits(label@, row@, columns as int),
        },
{
    let used: u128 = (row.indent as u128 + row.text.as_str().as_bytes().len() as u128) % 0x10000;
    let end: u16 = used as u16;
    if end > columns + 2 {
        return None;
    }
    let right: u16 = columns + 2 - end;
    if label.as_bytes().len() > 11 {
        if !label.is_char_boundary(10) {
            return None;
        }
        let head = label.split_at(10).0;
        assert(bytes_of(head@) =~= bytes_of(label@).take(10));
        Some(Side { right, text: head.to_owned(), ellipsis: true })
    } else {
        Some(Side { right, text: label.to_owned(), ellipsis: false })
    }
}

/// What a screen shows.
#[derive(Debug, PartialEq, Eq)]
pub struct Frame {
    /// The rows of the log, from the top.
    pub rows: Vec<Row>,
    /// Who is typing.
    pub typing: String,
    /// The line, counted from one, where `typing` stands.
    pub typing_line: u16,
    /// The line, counted from one, where the prompt stands.
    pub prompt_line: u16,
}

/// What a [`Frame`] shows.
pub ghost struct FrameView {
    pub rows: Seq<RowView>,
    pub typing: Seq<char>,
    pub typing_line: int,
    pub prompt_line: int,
}

impl View for Frame {
    type V = FrameView;

    open spec fn view(&self) -> FrameView {
        FrameView {
            rows: rows_view(self.rows@),
            typing: self.typing@,
            typing_line: self.typing_line as int,
            prompt_line: self.prompt_line as int,
        }
    }
}

/// The first entry of a log that a terminal shows; exactly one number satisfies
/// [`is_first_shown`].
pub open spec fn first_shown_of(log: Seq<(String, LogEntryId)>, columns: int, lines: int) -> int {
    choose|from: int| is_first_shown(log, from, columns, lines)
}

/// There is one first entry shown.
pub proof fn lemma_first_shown_unique(
    log: Seq<(String, LogEntryId)>,
    a: int,
    b: int,
    columns: int,
    lines: int,
)
    requires
        is_first_shown(log, a, columns, lines),
        is_first_shown(log, b, columns, lines),
    ensures
        a == b,
{
    if a < b {
        assert(log_lines(log.skip(a), columns) > lines);
    }
    if b < a {
        assert(log_lines(log.skip(b), columns) > lines);
    }
}

/// The entries of a log that a terminal shows.
pub open spec fn shown_log(
    log: Seq<(String, LogEntryId)>,
    width: int,
    height: int,
) -> Seq<(String, LogEntryId)> {
    log.skip(first_shown_of(log, columns_of(width), lines_of(height)))
}

/// Whether a screen can be drawn on a terminal: it has a line, every entry shown can be
/// drawn, and so can the labels next to them.
pub open spec fn paintable(
    log: Seq<(String, LogEntryId)>,
    labels: Seq<String>,
    width: int,
    height: int,
) -> bool {
    let shown = shown_log(log, width, height);
    let columns = columns_of(width);
    &&& height > 0
    &&& log_fits(shown, columns)
    &&& sides_fit(log_rows(shown, columns), labels, columns)
}

/// What a terminal shows of a screen: the log from its first entry shown on with the
/// labels next to it, the prompt on the last line but one and who is typing on the last.
pub open spec fn painted(
    log: Seq<(String, LogEntryId)>,
    labels: Seq<String>,
    typing: Seq<char>,
    width: int,
    height: int,
) -> FrameView {
    let columns = columns_of(width);
    FrameView {
        rows: with_sides(log_rows(shown_log(log, width, height), columns), labels, columns),
        typing,
        typing_line: height,
        prompt_line: height - 1,
    }
}

/// Lays a screen out, or gives `None` where it is not [`paintable`].
pub fn paint(
    log: &Vec<(String, LogEntryId)>,
    labels: &Vec<String>,
    typing: &str,
    width: u16,
    height: u16,
) -> (res: Option<Frame>)
    ensures
        match res {
            Some(frame) => paintable(log@, labels@, width as int, height as int) && frame@
                == painted(log@, labels@, typing@, width as int, height as int),
            None => !paintable(log@, labels@, width as int, height as int),
        },
{
    if height == 0 {
        return None;
    }
    let columns: u16 = width.saturating_sub(13);
    let lines: u16 = height.saturating_sub(3);
    let ghost c = columns_of(width as int);
    let from = first_shown(log, columns, lines);
    proof {
        lemma_first_shown_unique(
            log@,
            from as int,
            first_shown_of(log@, c, lines_of(height as int)),
            c,
            lines_of(height as int),
        );
    }
    let plain = match rows_of_log(log, from, columns) {
        Some(rows) => rows,
        None => {
            return None;
        },
    };
    let mut rows = plain;
    let ghost base = rows_view(rows@);
    let mut k: usize = 0;
    assert(rows_view(rows@).take(0) =~= with_sides(base, labels@, c).take(0));
    while k < rows.len() && k < labels.len()
        invariant
            k <= rows@.len() == base.len(),
            k <= labels@.len(),
            c == columns as int,
            c == columns_of(width as int),
            base == log_rows(shown_log(log@, width as int, height as int), c),
            columns <= u16::MAX - 13,
            forall|j: int| 0 <= j < k ==> side_fits((#[trigger] labels@[j])@, base[j], c),
            forall|j: int|
                0 <= j < k ==> (#[trigger] rows@[j])@ == with_sides(base, labels@, c)[j],
            forall|j: int| k <= j < rows@.len() ==> (#[trigger] rows@[j])@ == base[j],
        decreases rows@.len() - k,
    {
        let side = match side_of(labels[k].as_str(), &rows[k], columns) {
            Some(side) => side,
            None => {
                assert(!side_fits(labels@[k as int]@, base[k as int], c));
                return None;
            },
        };
        rows[k].side = Some(side);
        k = k + 1;
    }
    assert(rows_view(rows@) =~= with_sides(base, labels@, c));
    Some(Frame { rows, typing: typing.to_owned(), typing_line: height, prompt_line: height - 1 })
}

/// What the rows show one after the other.
pub open spec fn shown_text(rows: Seq<RowView>) -> Seq<u8> {
    rows.map_values(|row: RowView| row.text).flatten()
}

/// A text without its newlines.
pub open spec fn without_newlines(text: Seq<u8>) -> Seq<u8> {
    text.filter(|b: u8| b != 0x0a)
}

proof fn lemma_no_newline(text: Seq<u8>)
    requires
        forall|j: int| 0 <= j < text.len() ==> text[j] != 0x0a,
    ensures
        without_newlines(text) == text,
    decreases text.len(),
{
    reveal(Seq::filter);
    if text.len() > 0 {
        lemma_no_newline(text.drop_last());
        assert(text =~= text.drop_last().push(text.last()));
    }
}

/// Whether a row stays left of the right edge, in one line, behind its indentation.
pub open spec fn row_is_clean(row: RowView, indent: int, columns: int) -> bool {
    &&& row.text.len() > 0 ==> row.indent + row.text.len() <= columns
    &&& !row.text.contains(0x0a)
    &&& row.indent == indent
}

proof fn lemma_rows_are_clean(
    text: Seq<u8>,
    skip: bool,
    first: bool,
    indent: int,
    columns: int,
    sending: bool,
)
    requires
        indent >= 0,
        columns >= 0,
    ensures
        forall|k: int|
            0 <= k < text_rows(text, skip, first, indent, columns, sending).len()
                ==> row_is_clean(
                #[trigger] text_rows(text, skip, first, indent, columns, sending)[k],
                if first && k == 0 {
                    0
                } else {
                    indent
                },
                columns,
            ),
    decreases 2 * text.len() - (if skip { 1int } else { 0 }),
{
    let rows = text_rows(text, skip, first, indent, columns, sending);
    if text.len() > 0 {
        let rest = if skip { text.skip(1) } else { text };
        let pad = if first { 0 } else { indent };
        lemma_first_newline(rest);
        let width = row_width(rest, pad, columns);
        let ended = first_newline(rest) == Some(width);
        let row = RowView { indent: pad, text: rest.take(width), sending, side: None };
        assert(row_is_clean(row, pad, columns));
        if skip || width > 0 || ended {
            let more = text_rows(rest.skip(width), ended, false, indent, columns, sending);
            lemma_rows_are_clean(rest.skip(width), ended, false, indent, columns, sending);
            assert(rows == seq![row] + more);
            assert forall|k: int| 0 <= k < rows.len() implies row_is_clean(
                #[trigger] rows[k],
                if first && k == 0 {
                    0
                } else {
                    indent
                },
                columns,
            ) by {
                if k > 0 {
                    assert(rows[k] == more[k - 1]);
                }
            }
        }
    }
}

proof fn lemma_shown_text_step(row: RowView, more: Seq<RowView>)
    ensures
        shown_text(seq![row] + more) == row.text + shown_text(more),
{
    let rows = seq![row] + more;
    let texts = rows.map_values(|row: RowView| row.text);
    assert(texts.drop_first() =~= more.map_values(|row: RowView| row.text));
}

proof fn lemma_without_newlines_split(head: Seq<u8>, tail: Seq<u8>)
    ensures
        (forall|j: int| 0 <= j < head.len() ==> head[j] != 0x0a) ==> without_newlines(head + tail)
            == head + without_newlines(tail),
        head == seq![0x0au8] ==> without_newlines(head + tail) == without_newlines(tail),
{
    let keep = |b: u8| b != 0x0a;
    Seq::filter_distributes_over_add(head, tail, keep);
    if forall|j: int| 0 <= j < head.len() ==> head[j] != 0x0a {
        lemma_no_newline(head);
    }
    if head == seq![0x0au8] {
        reveal(Seq::filter);
        assert(head.drop_last() =~= seq![]);
        assert(head.drop_last().filter(keep) =~= seq![]);
        assert(head.filter(keep) =~= seq![]);
        assert(head.filter(keep) + tail.filter(keep) =~= tail.filter(keep));
    }
}

#[verifier::spinoff_prover]
#[verifier::rlimit(30)]
proof fn lemma_rows_show_text(
    text: Seq<u8>,
    skip: bool,
    first: bool,
    indent: int,
    columns: int,
    sending: bool,
)
    requires
        text_fits(text, skip, first, indent, columns),
        skip ==> text.len() > 0 && text[0] == 0x0a,
    ensures
        shown_text(text_rows(text, skip, first, indent, columns, sending)) == without_newlines(
            text,
        ),
    decreases 2 * text.len() - (if skip { 1int } else { 0 }),
{
    let rows = text_rows(text, skip, first, indent, columns, sending);
    if text.len() == 0 {
        assert(rows.map_values(|row: RowView| row.text) =~= seq![]);
        lemma_no_newline(text);
        assert(text =~= seq![]);
    } else {
        let rest = if skip { text.skip(1) } else { text };
        let pad = if first { 0 } else { indent };
        lemma_first_newline(rest);
        let width = row_width(rest, pad, columns);
        let ended = first_newline(rest) == Some(width);
        let head = rest.take(width);
        let tail = rest.skip(width);
        let row = RowView { indent: pad, text: head, sending, side: None };
        lemma_rows_show_text(tail, ended, false, indent, columns, sending);
        lemma_shown_text_step(row, text_rows(tail, ended, false, indent, columns, sending));
        assert(rest =~= head + tail);
        lemma_without_newlines_split(head, tail);
        if skip {
            assert(text =~= seq![0x0au8] + rest);
            lemma_without_newlines_split(seq![0x0au8], rest);
        }
    }
}

/// The rows of an entry that can be drawn show the whole entry but its newlines, in
/// order and nothing else; none holds a newline, none with text goes beyond the right
/// edge, and all but the first are indented alike.
pub proof fn law_rows_show_the_entry(text: Seq<char>, id: LogEntryId, columns: int)
    requires
        entry_fits(text, columns),
        columns >= 0,
    ensures
        shown_text(entry_rows(text, id, columns)) == without_newlines(bytes_of(text)),
        forall|k: int|
            0 <= k < entry_rows(text, id, columns).len() ==> row_is_clean(
                #[trigger] entry_rows(text, id, columns)[k],
                if k == 0 {
                    0
                } else {
                    indent_of(bytes_of(text))
                },
                columns,
            ),
{
    lemma_empty_text(text);
    if text.len() == 0 {
        let rows = entry_rows(text, id, columns);
        assert(rows.map_values(|row: RowView| row.text) =~= seq![seq![]]);
        rows.map_values(|row: RowView| row.text).lemma_flatten_singleton();
        reveal(Seq::filter);
        assert(shown_text(rows) =~= without_newlines(bytes_of(text)));
    } else {
        lemma_indent_exists(bytes_of(text));
        let indent = indent_of(bytes_of(text));
        let sending = id == LogEntryId::Sending;
        lemma_rows_show_text(bytes_of(text), false, true, indent, columns, sending);
        lemma_rows_are_clean(bytes_of(text), false, true, indent, columns, sending);
    }
}

proof fn lemma_least_marker(text: Seq<u8>, i: int) -> (m: int)
    requires
        marker_at(text, i),
    ensures
        is_indent(text, m + 2),
        0 <= m <= i,
    decreases i,
{
    if exists|j: int| 0 <= j < i && marker_at(text, j) {
        let j = choose|j: int| 0 <= j < i && marker_at(text, j);
        lemma_least_marker(text, j)
    } else {
        i
    }
}

/// Every text has an indentation, which stays within the text.
pub proof fn lemma_indent_exists(text: Seq<u8>)
    ensures
        is_indent(text, indent_of(text)),
        0 <= indent_of(text) <= text.len(),
{
    if exists|i: int| marker_at(text, i) {
        let i = choose|i: int| marker_at(text, i);
        let m = lemma_least_marker(text, i);
    } else {
        assert(is_indent(text, 0));
    }
}

/// What is shown of a log is its newest part, and it is counted for no more lines than
/// the terminal has for it.
pub proof fn law_shown_is_newest(log: Seq<(String, LogEntryId)>, width: int, height: int)
    requires
        height >= 0,
    ensures
        shown_log(log, width, height).len() <= log.len(),
        shown_log(log, width, height) == log.skip(
            log.len() - shown_log(log, width, height).len(),
        ),
        log_lines(shown_log(log, width, height), columns_of(width)) <= lines_of(height),
{
    let columns = columns_of(width);
    let lines = lines_of(height);
    lemma_first_shown_exists(log, log.len() as int, columns, lines);
    let from = first_shown_of(log, columns, lines);
    assert(is_first_shown(log, from, columns, lines));
}

pub proof fn lemma_first_shown_exists(
    log: Seq<(String, LogEntryId)>,
    k: int,
    columns: int,
    lines: int,
)
    requires
        0 <= k <= log.len(),
        log_lines(log.skip(k), columns) <= lines,
    ensures
        exists|from: int| is_first_shown(log, from, columns, lines),
    decreases k,
{
    if exists|j: int| 0 <= j < k && log_lines(#[trigger] log.skip(j), columns) <= lines {
        let j = choose|j: int| 0 <= j < k && log_lines(#[trigger] log.skip(j), columns) <= lines;
        lemma_first_shown_exists(log, j, columns, lines);
    } else {
        assert(is_first_shown(log, k, columns, lines));
    }
}

} // verus!
