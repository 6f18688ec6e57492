//! What the rows of a painted screen look like, said outright.

use vstd::prelude::*;
use vstd::utf8::{encode_utf8, is_char_boundary, valid_utf8};

use crate::layout::{
    breaks, columns_of, entry_fits, entry_lines, entry_rows, first_newline, first_shown_of,
    indent_of, is_first_shown, is_indent, law_shown_is_newest, lemma_first_newline,
    lemma_indent_exists, lemma_indent_unique, lines_of, log_lines, log_rows, marker_at, paintable,
    painted, row_width, shown_log, text_fits, text_rows, Frame, RowView,
};
use crate::model::LogEntryId;

verus! {

/// The rows of a log have nothing in the side column yet, and none is indented to the left.
proof fn lemma_plain_rows(log: Seq<(String, LogEntryId)>, columns: int)
    ensures
        forall|k: int|
            0 <= k < log_rows(log, columns).len() ==> {
                &&& (#[trigger] log_rows(log, columns)[k]).side is None
                &&& log_rows(log, columns)[k].indent >= 0
            },
    decreases log.len(),
{
    if log.len() > 0 {
        lemma_plain_rows(log.drop_last(), columns);
        let text = log.last().0@;
        let bytes = encode_utf8(text);
        lemma_indent_exists(bytes);
        lemma_plain_text_rows(
            bytes,
            false,
            true,
            indent_of(bytes),
            columns,
            log.last().1 == LogEntryId::Sending,
        );
        let before = log_rows(log.drop_last(), columns);
        let more = entry_rows(text, log.last().1, columns);
        assert forall|k: int| 0 <= k < log_rows(log, columns).len() implies {
            &&& (#[trigger] log_rows(log, columns)[k]).side is None
            &&& log_rows(log, columns)[k].indent >= 0
        } by {
            if k < before.len() {
                assert(log_rows(log, columns)[k] == before[k]);
            } else {
                assert(log_rows(log, columns)[k] == more[k - before.len()]);
            }
        }
    }
}

proof fn lemma_plain_text_rows(
    text: Seq<u8>,
    skip: bool,
    first: bool,
    indent: int,
    columns: int,
    sending: bool,
)
    requires
        indent >= 0,
    ensures
        forall|k: int|
            0 <= k < text_rows(text, skip, first, indent, columns, sending).len() ==> {
                &&& (#[trigger] text_rows(text, skip, first, indent, columns, sending)[k]).side
                    is None
                &&& text_rows(text, skip, first, indent, columns, sending)[k].indent >= 0
                &&& text_rows(text, skip, first, indent, columns, sending)[k].sending == sending
            },
    decreases 2 * text.len() - (if skip { 1int } else { 0 }),
{
    if text.len() > 0 {
        let rest = if skip { text.skip(1) } else { text };
        let pad = if first { 0 } else { indent };
        lemma_first_newline(rest);
        let width = row_width(rest, pad, columns);
        let ended = first_newline(rest) == Some(width);
        let row = RowView { indent: pad, text: rest.take(width), sending, side: None };
        let rows = text_rows(text, skip, first, indent, columns, sending);
        if skip || width > 0 || ended {
            let more = text_rows(rest.skip(width), ended, false, indent, columns, sending);
            lemma_plain_text_rows(rest.skip(width), ended, false, indent, columns, sending);
            assert(rows == seq![row] + more);
            assert forall|k: int| 0 <= k < rows.len() implies {
                &&& (#[trigger] rows[k]).side is None
                &&& rows[k].indent >= 0
                &&& rows[k].sending == sending
            } by {
                if k > 0 {
                    assert(rows[k] == more[k - 1]);
                }
            }
        }
    }
}

/// All labels of a painted screen stand in one column, two to the right of the log: the
/// indentation, the text and the move to the label add up to it, where the row is shorter
/// than 65536 bytes. The labels stand next to the first rows, one each; up to eleven bytes
/// they are whole, longer ones are cut behind the tenth and get an ellipsis.
pub proof fn law_labels_stand_in_one_column(
    log: Seq<(String, LogEntryId)>,
    labels: Seq<String>,
    typing: Seq<char>,
    width: int,
    height: int,
)
    requires
        paintable(log, labels, width, height),
    ensures
        forall|k: int|
            0 <= k < painted(log, labels, typing, width, height).rows.len() ==> {
                let row = #[trigger] painted(log, labels, typing, width, height).rows[k];
                &&& row.side is Some <==> k < labels.len()
                &&& row.side is Some ==> {
                    let side = row.side.unwrap();
                    let label = encode_utf8(labels[k]@);
                    &&& side.right >= 0
                    &&& row.indent + row.text.len() < 65536 ==> row.indent + row.text.len()
                        + side.right == (if width > 13 {
                        width - 13
                    } else {
                        0
                    }) + 2
                    &&& label.len() <= 11 ==> side.text == label && !side.ellipsis
                    &&& label.len() > 11 ==> side.text == label.take(10) && side.ellipsis
                }
            },
{
    let columns = columns_of(width);
    let shown = shown_log(log, width, height);
    let base = log_rows(shown, columns);
    lemma_plain_rows(shown, columns);
    let frame = painted(log, labels, typing, width, height);
    assert forall|k: int| 0 <= k < frame.rows.len() implies {
        let row = #[trigger] frame.rows[k];
        &&& row.side is Some <==> k < labels.len()
        &&& row.side is Some ==> {
            let side = row.side.unwrap();
            let label = encode_utf8(labels[k]@);
            &&& side.right >= 0
            &&& row.indent + row.text.len() < 65536 ==> row.indent + row.text.len() + side.right
                == (if width > 13 {
                width - 13
            } else {
                0
            }) + 2
            &&& label.len() <= 11 ==> side.text == label && !side.ellipsis
            &&& label.len() > 11 ==> side.text == label.take(10) && side.ellipsis
        }
    } by {
        assert(base[k].side is None && base[k].indent >= 0);
        if k < labels.len() {
            assert(crate::layout::side_fits(labels[k]@, base[k], columns));
        }
    }
}

/// A painted screen shows the rows of the newest entries as they are, who is typing on the
/// last line of the terminal, and the prompt on the line above it.
pub proof fn law_frame_shows_log_and_prompt(
    log: Seq<(String, LogEntryId)>,
    labels: Seq<String>,
    typing: Seq<char>,
    width: int,
    height: int,
)
    ensures
        ({
            let frame = painted(log, labels, typing, width, height);
            let rows = log_rows(
                shown_log(log, width, height),
                if width > 13 {
                    width - 13
                } else {
                    0
                },
            );
            &&& frame.typing == typing
            &&& frame.typing_line == height
            &&& frame.prompt_line == height - 1
            &&& frame.rows.len() == rows.len()
            &&& forall|k: int|
                0 <= k < rows.len() ==> {
                    &&& (#[trigger] frame.rows[k]).indent == rows[k].indent
                    &&& frame.rows[k].text == rows[k].text
                    &&& frame.rows[k].sending == rows[k].sending
                }
        }),
{
}

/// The rows of a log are those of its first entry, then those of the others.
pub proof fn law_entries_follow_each_other(
    entry: (String, LogEntryId),
    log: Seq<(String, LogEntryId)>,
    columns: int,
)
    ensures
        log_rows(seq![], columns) == Seq::<RowView>::empty(),
        log_rows(seq![entry] + log, columns) == entry_rows(entry.0@, entry.1, columns) + log_rows(
            log,
            columns,
        ),
    decreases log.len(),
{
    let whole = seq![entry] + log;
    if log.len() == 0 {
        assert(whole =~= seq![entry]);
        assert(whole.drop_last() =~= seq![]);
        reveal_with_fuel(log_rows, 2);
        assert(log_rows(whole, columns) =~= entry_rows(entry.0@, entry.1, columns) + log_rows(
            log,
            columns,
        ));
    } else {
        law_entries_follow_each_other(entry, log.drop_last(), columns);
        assert(whole.drop_last() =~= seq![entry] + log.drop_last());
        assert(whole.last() == log.last());
        assert(log_rows(whole, columns) =~= entry_rows(entry.0@, entry.1, columns) + log_rows(
            log,
            columns,
        ));
    }
}

/// Whether `indent` is just behind the first colon with a space behind it, or zero where there
/// is none.
pub open spec fn is_behind_name(text: Seq<u8>, indent: int) -> bool {
    if exists|i: int| 0 <= i < text.len() - 1 && #[trigger] text[i] == 0x3a && text[i + 1] == 0x20 {
        &&& 2 <= indent <= text.len()
        &&& text[indent - 2] == 0x3a
        &&& text[indent - 1] == 0x20
        &&& forall|j: int|
            0 <= j < indent - 2 ==> !(#[trigger] text[j] == 0x3a && text[j + 1] == 0x20)
    } else {
        indent == 0
    }
}

proof fn lemma_behind_name(text: Seq<u8>, indent: int)
    requires
        is_behind_name(text, indent),
    ensures
        indent == indent_of(text),
        0 <= indent <= text.len(),
{
    if exists|i: int| 0 <= i < text.len() - 1 && #[trigger] text[i] == 0x3a && text[i + 1] == 0x20 {
        let i = choose|i: int|
            0 <= i < text.len() - 1 && #[trigger] text[i] == 0x3a && text[i + 1] == 0x20;
        assert(marker_at(text, i));
        assert(marker_at(text, indent - 2));
        assert forall|j: int| 0 <= j < indent - 2 implies !marker_at(text, j) by {
            assert(!(text[j] == 0x3a && text[j + 1] == 0x20));
        }
    } else {
        assert forall|j: int| !marker_at(text, j) by {
            if marker_at(text, j) {
                assert(text[j] == 0x3a && text[j + 1] == 0x20);
            }
        }
    }
    assert(is_indent(text, indent));
    lemma_indent_exists(text);
    lemma_indent_unique(text, indent, indent_of(text));
}

/// Whether row `k` shows its part of a text: it starts where it should, is indented unless it
/// is the `first` of its entry, holds no newline and ends at a newline, which is left out, at
/// the right edge, or at the end of the text, but never within a character.
pub open spec fn is_wrapped_at(
    text: Seq<u8>,
    rows: Seq<RowView>,
    starts: Seq<int>,
    k: int,
    first: bool,
    indent: int,
    columns: int,
) -> bool {
    let pad = if first && k == 0 { 0 } else { indent };
    let start = starts[k];
    let end = start + rows[k].text.len();
    &&& 0 <= start
    &&& end <= text.len()
    &&& rows[k].text == text.subrange(start, end)
    &&& rows[k].indent == pad
    &&& forall|j: int| start <= j < end ==> #[trigger] text[j] != 0x0a
    &&& rows[k].text.len() > 0 ==> pad + rows[k].text.len() <= columns
    &&& end < text.len() ==> !(0x80 <= text[end] < 0xc0)
    &&& if k + 1 < rows.len() {
        &&& end < text.len()
        &&& if text[end] == 0x0a {
            starts[k + 1] == end + 1
        } else {
            starts[k + 1] == end && pad + rows[k].text.len() == columns
        }
    } else {
        end == text.len()
    }
}

/// A valid text can be cut at its end and before every byte that begins a character.
proof fn lemma_boundary(text: Seq<u8>, at: int)
    requires
        valid_utf8(text),
        0 <= at <= text.len(),
    ensures
        is_char_boundary(text, at) <==> (at < text.len() ==> !(0x80 <= text[at] < 0xc0)),
        is_char_boundary(text, at) ==> valid_utf8(text.skip(at)),
{
    if at < text.len() {
        vstd::utf8::is_char_boundary_iff_not_is_continuation_byte(text, at);
        let b = text[at];
        assert(vstd::utf8::is_continuation_byte(b) == (0x80 <= b && b < 0xc0)) by (bit_vector);
    } else {
        vstd::utf8::is_char_boundary_start_end_of_seq(text);
    }
    if is_char_boundary(text, at) {
        vstd::utf8::valid_utf8_split(text, at);
        assert(text.skip(at) =~= text.subrange(at, text.len() as int));
    }
}

/// A valid text that begins with a newline is valid behind it.
proof fn lemma_behind_newline(text: Seq<u8>)
    requires
        valid_utf8(text),
        text.len() > 0,
        text[0] == 0x0a,
    ensures
        valid_utf8(text.skip(1)),
{
    reveal_with_fuel(is_char_boundary, 2);
    assert(is_char_boundary(text, 1));
    lemma_boundary(text, 1);
}

#[verifier::spinoff_prover]
#[verifier::rlimit(60)]
proof fn lemma_wrapped(
    full: Seq<u8>,
    off: int,
    skip: bool,
    first: bool,
    indent: int,
    columns: int,
    sending: bool,
) -> (starts: Seq<int>)
    requires
        0 <= off < full.len(),
        valid_utf8(full.skip(off)),
        text_fits(full.skip(off), skip, first, indent, columns),
        skip ==> full[off] == 0x0a,
        indent >= 0,
        columns >= 0,
    ensures
        ({
            let rows = text_rows(full.skip(off), skip, first, indent, columns, sending);
            &&& rows.len() > 0
            &&& starts.len() == rows.len()
            &&& starts[0] == off + (if skip { 1int } else { 0 })
            &&& forall|k: int|
                0 <= k < rows.len() ==> #[trigger] is_wrapped_at(
                    full,
                    rows,
                    starts,
                    k,
                    first,
                    indent,
                    columns,
                )
        }),
    decreases 2 * (full.len() - off) - (if skip { 1int } else { 0 }),
{
    let text = full.skip(off);
    let rest = if skip { text.skip(1) } else { text };
    let start = off + (if skip { 1int } else { 0 });
    let pad = if first { 0 } else { indent };
    assert(rest =~= full.skip(start));
    lemma_first_newline(rest);
    let width = row_width(rest, pad, columns);
    let ended = first_newline(rest) == Some(width);
    let row = RowView { indent: pad, text: rest.take(width), sending, side: None };
    let tail = rest.skip(width);
    let rows = text_rows(text, skip, first, indent, columns, sending);
    let more = text_rows(tail, ended, false, indent, columns, sending);
    assert(0 <= width <= rest.len());
    if skip {
        lemma_behind_newline(text);
    }
    lemma_boundary(rest, width);
    if width < rest.len() {
        assert(full[start + width] == rest[width]);
    }
    assert(rows == seq![row] + more);
    assert(tail =~= full.skip(start + width));
    assert(row.text =~= full.subrange(start, start + width));
    assert forall|j: int| start <= j < start + width implies #[trigger] full[j] != 0x0a by {
        assert(full[j] == rest[j - start]);
    }
    if tail.len() == 0 {
        assert(more.len() == 0);
        let starts = seq![start];
        assert(is_wrapped_at(full, rows, starts, 0, first, indent, columns));
        starts
    } else {
        if ended {
            assert(full[start + width] == rest[width]);
        } else {
            assert(full[start + width] == rest[width]);
            assert(rest[width] != 0x0a);
            if columns <= pad {
                assert(width == 0);
                assert(tail =~= rest);
                assert(!text_fits(tail, false, false, indent, columns));
            }
            assert(pad + width == columns);
        }
        let later = lemma_wrapped(full, start + width, ended, false, indent, columns, sending);
        let starts = seq![start] + later;
        assert forall|k: int| 0 <= k < rows.len() implies #[trigger] is_wrapped_at(
            full,
            rows,
            starts,
            k,
            first,
            indent,
            columns,
        ) by {
            if k > 0 {
                assert(is_wrapped_at(full, more, later, k - 1, false, indent, columns));
                assert(rows[k] == more[k - 1]);
                assert(starts[k] == later[k - 1]);
                if k + 1 < rows.len() {
                    assert(starts[k + 1] == later[k]);
                }
            } else {
                assert(starts[1] == later[0]);
            }
        }
        starts
    }
}

/// An entry is broken into rows at its newlines and, where a row is full, at the right edge,
/// and nowhere else. The first row starts at the left; the others stand behind the name that
/// the entry begins with. Rows of a message on its way are marked as such, and only those. An
/// empty entry takes one empty row.
pub proof fn law_entries_are_wrapped(text: Seq<char>, id: LogEntryId, columns: int, indent: int)
    requires
        entry_fits(text, columns),
        columns >= 0,
        is_behind_name(encode_utf8(text), indent),
    ensures
        text.len() == 0 ==> entry_rows(text, id, columns) == seq![
            RowView { indent: 0, text: seq![], sending: false, side: None },
        ],
        text.len() > 0 ==> {
            let rows = entry_rows(text, id, columns);
            &&& exists|starts: Seq<int>|
                {
                    &&& starts.len() == rows.len()
                    &&& #[trigger] starts[0] == 0
                    &&& forall|k: int|
                        0 <= k < rows.len() ==> #[trigger] is_wrapped_at(
                            encode_utf8(text),
                            rows,
                            starts,
                            k,
                            true,
                            indent,
                            columns,
                        )
                }
            &&& rows.len() > 0
            &&& forall|k: int|
                0 <= k < rows.len() ==> (#[trigger] rows[k]).sending == (id is Sending)
        },
{
    let bytes = encode_utf8(text);
    if text.len() > 0 {
        vstd::utf8::encode_utf8_first_scalar(text);
        vstd::utf8::encode_utf8_valid_utf8(text);
        vstd::utf8::encode_utf8_decode_utf8(text);
        lemma_behind_name(bytes, indent);
        assert(bytes.skip(0) =~= bytes);
        assert(bytes.len() > 0) by {
            if bytes.len() == 0 {
                assert(bytes =~= encode_utf8(seq![]));
                vstd::utf8::encode_utf8_decode_utf8(seq![]);
            }
        }
        let sending = id == LogEntryId::Sending;
        assert(valid_utf8(bytes.skip(0)));
        let starts = lemma_wrapped(bytes, 0, false, true, indent, columns, sending);
        lemma_plain_text_rows(bytes, false, true, indent, columns, sending);
        let rows = entry_rows(text, id, columns);
        assert(rows == text_rows(bytes, false, true, indent, columns, sending));
        assert(starts[0] == 0);
        assert forall|k: int| 0 <= k < rows.len() implies #[trigger] is_wrapped_at(
            bytes,
            rows,
            starts,
            k,
            true,
            indent,
            columns,
        ) by {
            assert(is_wrapped_at(
                bytes,
                rows,
                starts,
                k,
                true,
                indent,
                columns,
            ));
        }
    }
}

/// Whether the rows of an entry may run from `starts` to `ends`: every row ends at a newline,
/// at the right edge or at the end, and never within a character.
pub open spec fn can_be_cut(
    text: Seq<u8>,
    starts: Seq<int>,
    ends: Seq<int>,
    indent: int,
    columns: int,
) -> bool {
    &&& starts.len() > 0
    &&& ends.len() == starts.len()
    &&& starts[0] == 0
    &&& forall|k: int|
        0 <= k < starts.len() ==> #[trigger] can_be_cut_at(text, starts, ends, k, indent, columns)
}

/// Whether row `k` of an entry may run from `starts[k]` to `ends[k]`.
pub open spec fn can_be_cut_at(
    text: Seq<u8>,
    starts: Seq<int>,
    ends: Seq<int>,
    k: int,
    indent: int,
    columns: int,
) -> bool {
    let pad = if k == 0 { 0 } else { indent };
    let width = ends[k] - starts[k];
    &&& 0 <= starts[k] <= ends[k] <= text.len()
    &&& forall|j: int| starts[k] <= j < ends[k] ==> #[trigger] text[j] != 0x0a
    &&& width > 0 ==> pad + width <= columns
    &&& ends[k] < text.len() ==> !(0x80 <= text[ends[k]] < 0xc0)
    &&& if k + 1 < starts.len() {
        &&& ends[k] < text.len()
        &&& if text[ends[k]] == 0x0a {
            starts[k + 1] == ends[k] + 1
        } else {
            starts[k + 1] == ends[k] && width > 0 && pad + width == columns
        }
    } else {
        ends[k] == text.len()
    }
}

proof fn lemma_cut_fits(
    full: Seq<u8>,
    off: int,
    skip: bool,
    k: int,
    starts: Seq<int>,
    ends: Seq<int>,
    indent: int,
    columns: int,
)
    requires
        0 <= off < full.len(),
        valid_utf8(full.skip(off)),
        can_be_cut(full, starts, ends, indent, columns),
        0 <= k < starts.len(),
        starts[k] == off + (if skip { 1int } else { 0 }),
        skip ==> full[off] == 0x0a,
        indent >= 0,
        columns >= 0,
    ensures
        text_fits(full.skip(off), skip, k == 0, indent, columns),
    decreases 2 * (full.len() - off) - (if skip { 1int } else { 0 }),
{
    assert(can_be_cut_at(full, starts, ends, k, indent, columns));
    let text = full.skip(off);
    let rest = if skip { text.skip(1) } else { text };
    let start = starts[k];
    let width = ends[k] - start;
    let pad = if k == 0 { 0 } else { indent };
    assert(rest =~= full.skip(start));
    if skip {
        lemma_behind_newline(text);
    }
    lemma_first_newline(rest);
    assert forall|j: int| 0 <= j < width implies rest[j] != 0x0a by {
        assert(rest[j] == full[start + j]);
        assert(full[start + j] != 0x0a);
    }
    if width < rest.len() {
        assert(rest[width] == full[ends[k]]);
    }
    assert(row_width(rest, pad, columns) == width);
    lemma_boundary(rest, width);
    let ended = first_newline(rest) == Some(width);
    assert(rest.skip(width) =~= full.skip(ends[k]));
    if k + 1 < starts.len() {
        assert(ended == (full[ends[k]] == 0x0a));
        lemma_cut_fits(full, ends[k], ended, k + 1, starts, ends, indent, columns);
        assert(text_fits(rest.skip(width), ended, false, indent, columns));
    } else {
        assert(rest.skip(width).len() == 0);
        assert(text_fits(rest.skip(width), ended, false, indent, columns));
        assert(skip || width > 0);
    }
    assert(is_char_boundary(rest, width));
}

/// An entry can be drawn wherever its rows can be cut: whatever characters it has, as long as
/// no row has to end within one of them.
pub proof fn law_entries_fit_where_they_can_be_cut(
    text: Seq<char>,
    starts: Seq<int>,
    ends: Seq<int>,
    indent: int,
    columns: int,
)
    requires
        columns >= 0,
        is_behind_name(encode_utf8(text), indent),
        text.len() == 0 || can_be_cut(encode_utf8(text), starts, ends, indent, columns),
    ensures
        entry_fits(text, columns),
{
    let bytes = encode_utf8(text);
    lemma_behind_name(bytes, indent);
    vstd::utf8::encode_utf8_valid_utf8(text);
    if text.len() == 0 {
        assert(bytes.len() == 0);
    } else if bytes.len() > 0 {
        assert(bytes.skip(0) =~= bytes);
        lemma_cut_fits(bytes, 0, false, 0, starts, ends, indent, columns);
    }
}

/// An entry without newlines that is no longer than a row can be drawn, whatever characters
/// it has.
pub proof fn law_short_entries_fit(text: Seq<char>, columns: int)
    requires
        encode_utf8(text).len() <= columns,
        !encode_utf8(text).contains(0x0a),
    ensures
        entry_fits(text, columns),
{
    let bytes = encode_utf8(text);
    lemma_indent_exists(bytes);
    vstd::utf8::encode_utf8_valid_utf8(text);
    if bytes.len() > 0 {
        let starts = seq![0int];
        let ends = seq![bytes.len() as int];
        assert forall|j: int| 0 <= j < bytes.len() implies #[trigger] bytes[j] != 0x0a by {
            assert(bytes.contains(bytes[j]));
        }
        assert(can_be_cut_at(bytes, starts, ends, 0, indent_of(bytes), columns));
        assert(bytes.skip(0) =~= bytes);
        lemma_cut_fits(bytes, 0, false, 0, starts, ends, indent_of(bytes), columns);
    }
}

/// Whether no row next to a label reaches beyond the column of the labels, and no label has to
/// be cut within a character.
pub open spec fn labels_have_room(rows: Seq<RowView>, labels: Seq<String>, columns: int) -> bool {
    forall|k: int|
        0 <= k < rows.len() && k < labels.len() ==> label_has_room(
            rows[k],
            encode_utf8((#[trigger] labels[k])@),
            columns,
        )
}

/// Whether a row next to a label does not reach beyond the column of the labels, and the label
/// does not have to be cut within a character.
pub open spec fn label_has_room(row: RowView, label: Seq<u8>, columns: int) -> bool {
    &&& (row.indent + row.text.len()) % 65536 <= columns + 2
    &&& label.len() > 11 ==> !(0x80 <= label[10] < 0xc0)
}

proof fn lemma_room(label: Seq<char>, row: RowView, columns: int)
    ensures
        crate::layout::side_fits(label, row, columns) == label_has_room(
            row,
            encode_utf8(label),
            columns,
        ),
{
    vstd::utf8::encode_utf8_valid_utf8(label);
    if encode_utf8(label).len() > 11 {
        lemma_boundary(encode_utf8(label), 10);
    }
}

/// A screen is painted exactly where the terminal has a line, every entry shown can be drawn,
/// and there is room for the labels next to them.
pub proof fn law_painted_where_all_fits(
    log: Seq<(String, LogEntryId)>,
    labels: Seq<String>,
    width: int,
    height: int,
)
    ensures
        ({
            let columns = if width > 13 { width - 13 } else { 0 };
            let shown = shown_log(log, width, height);
            paintable(log, labels, width, height) <==> (height > 0 && (forall|k: int|
                0 <= k < shown.len() ==> entry_fits((#[trigger] shown[k]).0@, columns))
                && labels_have_room(log_rows(shown, columns), labels, columns))
        }),
{
    let columns = columns_of(width);
    let rows = log_rows(shown_log(log, width, height), columns);
    assert forall|k: int| 0 <= k < rows.len() && k < labels.len() implies crate::layout::side_fits(
        (#[trigger] labels[k])@,
        rows[k],
        columns,
    ) == label_has_room(rows[k], encode_utf8(labels[k]@), columns) by {
        lemma_room(labels[k]@, rows[k], columns);
    }
    assert(crate::layout::sides_fit(rows, labels, columns) ==> labels_have_room(
        rows,
        labels,
        columns,
    ));
    assert(labels_have_room(rows, labels, columns) ==> crate::layout::sides_fit(
        rows,
        labels,
        columns,
    ));
}

/// What is shown of a log is the longest newest part that is counted for no more lines than
/// the terminal has above its last three.
pub proof fn law_shown_is_all_that_fits(
    log: Seq<(String, LogEntryId)>,
    width: int,
    height: int,
    n: int,
)
    requires
        height >= 0,
    ensures
        ({
            let shown = shown_log(log, width, height);
            let columns = if width > 13 { width - 13 } else { 0 };
            let lines = if height > 3 { height - 3 } else { 0 };
            &&& shown.len() <= log.len()
            &&& shown == log.skip(log.len() - shown.len())
            &&& log_lines(shown, columns) <= lines
            &&& shown.len() < n <= log.len() ==> log_lines(log.skip(log.len() - n), columns)
                > lines
        }),
{
    law_shown_is_newest(log, width, height);
    let columns = columns_of(width);
    let lines = lines_of(height);
    let from = first_shown_of(log, columns, lines);
    crate::layout::lemma_first_shown_exists(log, log.len() as int, columns, lines);
    assert(is_first_shown(log, from, columns, lines));
    if shown_log(log, width, height).len() < n <= log.len() {
        assert(log.len() - n < from);
    }
}

/// The lines of entries add up.
pub proof fn law_lines_add_up(
    log: Seq<(String, LogEntryId)>,
    entry: (String, LogEntryId),
    columns: int,
)
    ensures
        log_lines(seq![], columns) == 0,
        log_lines(log.push(entry), columns) == log_lines(log, columns) + entry_lines(
            entry.0@,
            columns,
        ),
    decreases log.len(),
{
    if log.len() == 0 {
        assert(log.push(entry).drop_first() =~= seq![]);
        reveal_with_fuel(log_lines, 2);
    } else {
        law_lines_add_up(log.drop_first(), entry, columns);
        assert(log.push(entry).drop_first() =~= log.drop_first().push(entry));
    }
}

/// How often a run of `len` characters without newlines breaks that starts in column `i`: the
/// first time behind the right edge, then again after every `columns - indent` characters
/// and the one at the edge. What starts beyond the edge never breaks, and neither does
/// anything where there are no columns.
pub open spec fn breaks_of_run(len: int, i: int, indent: int, columns: int) -> int {
    if columns == 0 || i > columns || len <= columns - i {
        0
    } else if indent > columns {
        1
    } else {
        1 + (len - (columns - i) - 1) / (columns - indent + 1)
    }
}

proof fn lemma_breaks_of_run(text: Seq<char>, i: int, indent: int, columns: int)
    requires
        !text.contains('\n'),
        0 <= indent,
        0 <= i,
        0 <= columns,
    ensures
        breaks(text, i, indent, columns) == breaks_of_run(text.len() as int, i, indent, columns),
    decreases text.len(),
{
    if text.len() > 0 {
        let rest = text.drop_first();
        assert(text.contains(text[0]));
        assert(!rest.contains('\n')) by {
            if rest.contains('\n') {
                let j = choose|j: int| 0 <= j < rest.len() && rest[j] == '\n';
                assert(text[j + 1] == '\n');
            }
        }
        if i == columns && i != 0 {
            lemma_breaks_of_run(rest, indent, indent, columns);
            let m = columns - indent + 1;
            let x = text.len() - 1;
            if indent <= columns {
                if x >= m {
                    assert((x - m) / m + 1 == x / m) by (nonlinear_arith)
                        requires
                            x >= m,
                            m > 0,
                    ;
                } else {
                    assert(x / m == 0) by (nonlinear_arith)
                        requires
                            0 <= x < m,
                    ;
                }
            }
        } else {
            lemma_breaks_of_run(rest, i + 1, indent, columns);
        }
    }
}

proof fn lemma_breaks_at_newline(
    a: Seq<char>,
    b: Seq<char>,
    i: int,
    indent: int,
    columns: int,
)
    ensures
        breaks(a + seq!['\n'] + b, i, indent, columns) == breaks(a, i, indent, columns) + 1
            + breaks(b, indent, indent, columns),
    decreases a.len(),
{
    let whole = a + seq!['\n'] + b;
    if a.len() == 0 {
        assert(whole.drop_first() =~= b);
        assert(whole[0] == '\n');
    } else {
        assert(whole.drop_first() =~= a.drop_first() + seq!['\n'] + b);
        assert(whole[0] == a[0]);
        if (i != 0 && i == columns) || a[0] == '\n' {
            lemma_breaks_at_newline(a.drop_first(), b, indent, indent, columns);
        } else {
            lemma_breaks_at_newline(a.drop_first(), b, i + 1, indent, columns);
        }
    }
}

/// An entry without newlines is counted for one line, and for one more each time it breaks;
/// a newline in it adds one line, and what follows starts behind the name that the entry
/// begins with.
pub proof fn law_lines_are_counted(
    text: Seq<char>,
    a: Seq<char>,
    b: Seq<char>,
    columns: int,
    indent: int,
)
    requires
        is_behind_name(encode_utf8(text), indent),
        columns >= 0,
    ensures
        !text.contains('\n') ==> entry_lines(text, columns) == 1 + breaks_of_run(
            text.len() as int,
            0,
            indent,
            columns,
        ),
        text == a + seq!['\n'] + b && !a.contains('\n') && !b.contains('\n') ==> entry_lines(
            text,
            columns,
        ) == 2 + breaks_of_run(a.len() as int, 0, indent, columns) + breaks_of_run(
            b.len() as int,
            indent,
            indent,
            columns,
        ),
        text == a + seq!['\n'] + b && !b.contains('\n') ==> entry_lines(text, columns) == 2
            + breaks(a, 0, indent, columns) + breaks_of_run(
            b.len() as int,
            indent,
            indent,
            columns,
        ),
{
    lemma_behind_name(encode_utf8(text), indent);
    if !text.contains('\n') {
        lemma_breaks_of_run(text, 0, indent, columns);
    }
    if text == a + seq!['\n'] + b {
        lemma_breaks_at_newline(a, b, 0, indent, columns);
        if !b.contains('\n') {
            lemma_breaks_of_run(b, indent, indent, columns);
        }
        if !a.contains('\n') {
            lemma_breaks_of_run(a, 0, indent, columns);
        }
    }
}

/// Texts with a newline between each and the next.
pub open spec fn in_lines(parts: Seq<Seq<char>>) -> Seq<char>
    decreases parts.len(),
{
    if parts.len() == 0 {
        seq![]
    } else if parts.len() == 1 {
        parts[0]
    } else {
        parts[0] + seq!['\n'] + in_lines(parts.drop_first())
    }
}

/// How often some parts break in all, the first of which starts in column `i` and the others
/// behind the indentation.
pub open spec fn breaks_of_parts(
    parts: Seq<Seq<char>>,
    i: int,
    indent: int,
    columns: int,
) -> int
    decreases parts.len(),
{
    if parts.len() == 0 {
        0
    } else {
        breaks_of_run(parts[0].len() as int, i, indent, columns) + breaks_of_parts(
            parts.drop_first(),
            indent,
            indent,
            columns,
        )
    }
}

proof fn lemma_breaks_of_parts(parts: Seq<Seq<char>>, i: int, indent: int, columns: int)
    requires
        parts.len() > 0,
        forall|k: int| 0 <= k < parts.len() ==> !(#[trigger] parts[k]).contains('\n'),
        0 <= indent,
        0 <= i,
        0 <= columns,
    ensures
        breaks(in_lines(parts), i, indent, columns) == parts.len() - 1 + breaks_of_parts(
            parts,
            i,
            indent,
            columns,
        ),
    decreases parts.len(),
{
    assert(!parts[0].contains('\n'));
    lemma_breaks_of_run(parts[0], i, indent, columns);
    let rest = parts.drop_first();
    if parts.len() > 1 {
        assert forall|k: int| 0 <= k < rest.len() implies !(#[trigger] rest[k]).contains('\n') by {
            assert(rest[k] == parts[k + 1]);
        }
        lemma_breaks_of_parts(rest, indent, indent, columns);
        lemma_breaks_at_newline(parts[0], in_lines(rest), i, indent, columns);
    } else {
        assert(breaks_of_parts(rest, indent, indent, columns) == 0);
    }
}

/// An entry is counted for one line for each of its parts between newlines, and for one more
/// each time a part breaks.
pub proof fn law_parts_are_counted(parts: Seq<Seq<char>>, columns: int, indent: int)
    requires
        parts.len() > 0,
        forall|k: int| 0 <= k < parts.len() ==> !(#[trigger] parts[k]).contains('\n'),
        is_behind_name(encode_utf8(in_lines(parts)), indent),
        columns >= 0,
    ensures
        entry_lines(in_lines(parts), columns) == parts.len() + breaks_of_parts(
            parts,
            0,
            indent,
            columns,
        ),
{
    lemma_behind_name(encode_utf8(in_lines(parts)), indent);
    lemma_breaks_of_parts(parts, 0, indent, columns);
}

proof fn lemma_ascii_bytes(chars: Seq<char>)
    requires
        vstd::utf8::is_ascii_chars(chars),
    ensures
        encode_utf8(chars).len() == chars.len(),
        forall|k: int|
            0 <= k <= chars.len() ==> {
                &&& #[trigger] encode_utf8(chars.skip(k)) == encode_utf8(chars).skip(k)
                &&& vstd::utf8::is_ascii_chars(chars.skip(k))
            },
        forall|k: int| 0 <= k <= chars.len() ==> is_char_boundary(encode_utf8(chars), k),
        forall|k: int|
            0 <= k < chars.len() ==> #[trigger] encode_utf8(chars)[k] == chars[k] as u8,
{
    vstd::utf8::is_ascii_chars_encode_utf8(chars);
    let bytes = encode_utf8(chars);
    vstd::utf8::encode_utf8_valid_utf8(chars);
    assert forall|k: int| 0 <= k <= chars.len() implies {
        &&& #[trigger] encode_utf8(chars.skip(k)) == bytes.skip(k)
        &&& vstd::utf8::is_ascii_chars(chars.skip(k))
    } by {
        vstd::utf8::is_ascii_chars_encode_utf8(chars.skip(k));
        assert(encode_utf8(chars.skip(k)) =~= bytes.skip(k));
    }
    assert forall|k: int| 0 <= k <= chars.len() implies is_char_boundary(bytes, k) by {
        if k < chars.len() {
            vstd::utf8::is_char_boundary_iff_not_is_continuation_byte(bytes, k);
            assert(bytes[k] == chars[k] as u8);
            let b = bytes[k];
            assert(b < 0x80 ==> !vstd::utf8::is_continuation_byte(b)) by (bit_vector);
        } else {
            vstd::utf8::is_char_boundary_start_end_of_seq(bytes);
        }
    }
}

proof fn lemma_ascii_fits(chars: Seq<char>, skip: bool, first: bool, indent: int, columns: int)
    requires
        vstd::utf8::is_ascii_chars(chars),
        skip ==> chars.len() > 0 && chars[0] == '\n',
        0 <= indent < columns,
    ensures
        text_fits(encode_utf8(chars), skip, first, indent, columns),
    decreases 2 * chars.len() - (if skip { 1int } else { 0 }),
{
    lemma_ascii_bytes(chars);
    if chars.len() > 0 {
        let bytes = encode_utf8(chars);
        let from: int = if skip { 1 } else { 0 };
        let text = chars.skip(from);
        let rest = encode_utf8(text);
        assert(rest == bytes.skip(from));
        assert(bytes.skip(0) =~= bytes);
        assert(vstd::utf8::is_ascii_chars(text));
        lemma_ascii_bytes(text);
        lemma_first_newline(rest);
        let pad = if first { 0 } else { indent };
        let width = row_width(rest, pad, columns);
        let ended = first_newline(rest) == Some(width);
        assert(0 <= width <= text.len());
        assert(encode_utf8(text.skip(width)) == rest.skip(width));
        assert(vstd::utf8::is_ascii_chars(text.skip(width)));
        if ended {
            assert(rest[width] == text[width] as u8);
            assert(text.skip(width)[0] == '\n');
        }
        if skip || width > 0 || ended {
            lemma_ascii_fits(text.skip(width), ended, false, indent, columns);
        }
    }
}

/// A screen whose entries and labels are plain ASCII is painted on every terminal with at
/// least one line and with room behind the indentation of each entry.
pub proof fn law_plain_screens_are_painted(
    log: Seq<(String, LogEntryId)>,
    labels: Seq<String>,
    width: int,
    height: int,
)
    requires
        0 < height,
        13 < width <= 65535,
        forall|k: int|
            0 <= k < log.len() ==> vstd::utf8::is_ascii_chars((#[trigger] log[k]).0@)
                && indent_of(encode_utf8(log[k].0@)) < width - 13,
        forall|k: int|
            0 <= k < labels.len() ==> vstd::utf8::is_ascii_chars((#[trigger] labels[k])@),
    ensures
        paintable(log, labels, width, height),
{
    let columns = columns_of(width);
    let shown = shown_log(log, width, height);
    law_shown_is_newest(log, width, height);
    assert forall|k: int| 0 <= k < shown.len() implies entry_fits(
        (#[trigger] shown[k]).0@,
        columns,
    ) && vstd::utf8::is_ascii_chars(shown[k].0@) && indent_of(encode_utf8(shown[k].0@))
        < columns by {
        assert(shown[k] == log[log.len() - shown.len() + k]);
        lemma_indent_exists(encode_utf8(shown[k].0@));
        lemma_ascii_fits(
            shown[k].0@,
            false,
            true,
            indent_of(encode_utf8(shown[k].0@)),
            columns,
        );
    }
    lemma_rows_stay_inside(shown, columns);
    let base = log_rows(shown, columns);
    assert forall|k: int| 0 <= k < base.len() && k < labels.len() implies crate::layout::side_fits(
        (#[trigger] labels[k])@,
        base[k],
        columns,
    ) by {
        lemma_ascii_bytes(labels[k]@);
        assert(0 <= base[k].indent + base[k].text.len() <= columns);
    }
}

proof fn lemma_rows_stay_inside(log: Seq<(String, LogEntryId)>, columns: int)
    requires
        columns >= 0,
        forall|k: int|
            0 <= k < log.len() ==> entry_fits((#[trigger] log[k]).0@, columns) && indent_of(
                encode_utf8(log[k].0@),
            ) < columns,
    ensures
        forall|k: int|
            0 <= k < log_rows(log, columns).len() ==> 0 <= (#[trigger] log_rows(
                log,
                columns,
            )[k]).indent + log_rows(log, columns)[k].text.len() <= columns,
    decreases log.len(),
{
    if log.len() > 0 {
        let before = log.drop_last();
        assert forall|k: int| 0 <= k < before.len() implies entry_fits(
            (#[trigger] before[k]).0@,
            columns,
        ) && indent_of(encode_utf8(before[k].0@)) < columns by {
            assert(before[k] == log[k]);
        }
        lemma_rows_stay_inside(before, columns);
        let last = log[log.len() - 1];
        let bytes = encode_utf8(last.0@);
        assert(entry_fits(last.0@, columns));
        lemma_indent_exists(bytes);
        crate::layout::law_rows_show_the_entry(last.0@, last.1, columns);
        let head = log_rows(before, columns);
        let more = entry_rows(last.0@, last.1, columns);
        let rows = log_rows(log, columns);
        assert forall|k: int| 0 <= k < rows.len() implies 0 <= (#[trigger] rows[k]).indent
            + rows[k].text.len() <= columns by {
            if k < head.len() {
                assert(rows[k] == head[k]);
            } else {
                let j = k - head.len();
                assert(rows[k] == more[j]);
                assert(crate::layout::row_is_clean(
                    more[j],
                    if j == 0 {
                        0
                    } else {
                        indent_of(bytes)
                    },
                    columns,
                ));
            }
        }
    }
}

/// What a frame shows is what its rows show, in their order, byte for byte.
pub proof fn law_frames_show_their_rows(frame: Frame, i: int)
    ensures
        frame@.rows.len() == frame.rows@.len(),
        frame@.typing == frame.typing@,
        frame@.typing_line == frame.typing_line,
        frame@.prompt_line == frame.prompt_line,
        0 <= i < frame.rows@.len() ==> {
            let row = frame.rows@[i];
            let shown = frame@.rows[i];
            &&& shown.indent == row.indent
            &&& shown.text == encode_utf8(row.text@)
            &&& shown.sending == row.sending
            &&& shown.side is Some <==> row.side is Some
            &&& row.side is Some ==> {
                &&& shown.side.unwrap().right == row.side.unwrap().right
                &&& shown.side.unwrap().text == encode_utf8(row.side.unwrap().text@)
                &&& shown.side.unwrap().ellipsis == row.side.unwrap().ellipsis
            }
        },
{
}

} // verus!
