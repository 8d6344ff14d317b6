//! The lines of the reports on watches.

use vstd::prelude::*;
use vstd::string::*;
use crate::text::{find_from, lemma_position_from, number_text, position_from, push_number};
use crate::value::WatchState;
use crate::watch::{Watch, WatchView};

verus! {

/// The texts of a run of lines, one for one.
pub open spec fn texts_of(lines: Seq<String>) -> Seq<Seq<char>> {
    Seq::new(lines.len(), |i: int| lines[i]@)
}

/// A line without the carriage return at its end, where it has one.
pub open spec fn without_return(line: Seq<char>) -> Seq<char> {
    if line.len() > 0 && line.last() == '\r' {
        line.drop_last()
    } else {
        line
    }
}

/// The lines of `text` from the index `start` on. A line ends at a line
/// feed, or at a carriage return before a line feed; what follows the last
/// line feed is a line where it is not empty.
pub open spec fn lines_from(text: Seq<char>, start: int) -> Seq<Seq<char>>
    decreases text.len() - start,
{
    if start < 0 || start >= text.len() {
        Seq::empty()
    } else {
        let end = position_from(text, '\n', start);
        proof {
            lemma_position_from(text, '\n', start);
        }
        if end >= text.len() {
            seq![text.skip(start)]
        } else {
            seq![without_return(text.subrange(start, end))] + lines_from(text, end + 1)
        }
    }
}

/// The lines of `text`.
pub open spec fn lines_of(text: Seq<char>) -> Seq<Seq<char>> {
    lines_from(text, 0)
}

/// The lines that show one value: `label(location) = value`, or, for a
/// value of several lines, one line `label(location)[line N] = line` for
/// each of them.
pub open spec fn value_lines(label: Seq<char>, location: Seq<char>, value: Seq<char>) -> Seq<
    Seq<char>,
> {
    let lines = lines_of(value);
    if lines.len() > 1 {
        Seq::new(
            lines.len(),
            |i: int|
                label + "("@ + location + ")[line "@ + number_text((i + 1) as nat, 10) + "] = "@
                    + lines[i],
        )
    } else {
        seq![label + "("@ + location + ") = "@ + value]
    }
}

/// The number of bytes that a text in memory takes in UTF-8.
pub open spec fn byte_length(text: Seq<char>) -> nat {
    (vstd::utf8::encode_utf8(text).len() as usize) as nat
}

/// The lines of a heading: an empty line, the heading, one equals sign for
/// each byte of the heading, and an empty line.
pub open spec fn heading_lines(heading: Seq<char>) -> Seq<Seq<char>> {
    seq![
        Seq::empty(),
        heading,
        Seq::new(byte_length(heading), |i: int| '='),
        Seq::empty(),
    ]
}

/// The bit index of a port as it is shown: nothing where there is none.
pub open spec fn index_text(port_index: Option<u8>) -> Seq<char> {
    match port_index {
        Some(index) => number_text(index as nat, 10),
        None => Seq::empty(),
    }
}

impl WatchView {
    /// Where the watch looks, as it is shown in reports.
    pub open spec fn location(self) -> Seq<char> {
        match self {
            WatchView::MemoryAddress { space, address, .. } => address.text() + " ("@
                + space.label() + ")"@,
            WatchView::Symbol { name, .. } => name,
            WatchView::IoPort { port_letter, port_index } => "IO PORT"@ + seq![port_letter]
                + index_text(port_index),
            WatchView::IoPin { port_letter, port_index } => "IO PIN"@ + seq![port_letter]
                + index_text(port_index),
            WatchView::IoDataDirectionRegister { port_letter, port_index } => "IO DDR"@
                + seq![port_letter] + index_text(port_index),
        }
    }
}

/// Appends a port letter and, where there is one, the bit index.
fn push_port(out: &mut String, port_letter: char, port_index: Option<u8>)
    ensures
        final(out)@ == old(out)@ + seq![port_letter] + index_text(port_index),
{
    out.push(port_letter);
    match port_index {
        Some(index) => push_number(out, index as u128, 10),
        None => {},
    }
    proof {
        assert(final(out)@ =~= old(out)@ + seq![port_letter] + index_text(port_index));
    }
}

impl Watch {
    /// Where the watch looks, as it is shown in reports.
    pub fn location(&self) -> (text: String)
        requires
            self@.wf(),
        ensures
            text@ == self@.location(),
    {
        match self {
            Watch::MemoryAddress { space, address, .. } => {
                let mut text = address.to_string();
                text.append(" (");
                text.append(space.human_label());
                text.append(")");
                text
            },
            Watch::Symbol { name, .. } => name.clone(),
            Watch::IoPort { port_letter, port_index } => {
                let mut text = "IO PORT".to_owned();
                push_port(&mut text, *port_letter, *port_index);
                text
            },
            Watch::IoPin { port_letter, port_index } => {
                let mut text = "IO PIN".to_owned();
                push_port(&mut text, *port_letter, *port_index);
                text
            },
            Watch::IoDataDirectionRegister { port_letter, port_index } => {
                let mut text = "IO DDR".to_owned();
                push_port(&mut text, *port_letter, *port_index);
                text
            },
        }
    }
}

/// The lines of a text.
pub fn split_lines(text: &str) -> (lines: Vec<String>)
    ensures
        texts_of(lines@) == lines_of(text@),
{
    let length = text.unicode_len();
    let mut lines: Vec<String> = Vec::new();
    let mut start: usize = 0;
    proof {
        assert(texts_of(lines@) + lines_from(text@, 0) =~= lines_of(text@));
    }
    while start < length
        invariant
            length == text@.len(),
            start <= length,
            lines_of(text@) == texts_of(lines@) + lines_from(text@, start as int),
        decreases length - start,
    {
        let end = find_from(text, '\n', start);
        let ghost before = texts_of(lines@);
        if end >= length {
            lines.push(text.substring_char(start, length).to_owned());
            proof {
                assert(text@.subrange(start as int, length as int) =~= text@.skip(start as int));
                assert(texts_of(lines@) =~= before.push(text@.skip(start as int)));
                assert(lines_from(text@, length as int) =~= Seq::<Seq<char>>::empty());
                assert(texts_of(lines@) + lines_from(text@, length as int) =~= before + seq![
                    text@.skip(start as int),
                ]);
            }
            start = length;
        } else {
            let stop = if end > start && text.get_char(end - 1) == '\r' {
                end - 1
            } else {
                end
            };
            lines.push(text.substring_char(start, stop).to_owned());
            proof {
                let line = text@.subrange(start as int, end as int);
                if end > start {
                    assert(line.last() == text@[end - 1]);
                }
                assert(text@.subrange(start as int, stop as int) =~= without_return(line));
                assert(texts_of(lines@) =~= before.push(without_return(line)));
                assert(texts_of(lines@) + lines_from(text@, end + 1) =~= before + (seq![
                    without_return(line),
                ] + lines_from(text@, end + 1)));
            }
            start = end + 1;
        }
    }
    proof {
        assert(lines_from(text@, start as int) =~= Seq::<Seq<char>>::empty());
        assert(texts_of(lines@) + Seq::<Seq<char>>::empty() =~= texts_of(lines@));
    }
    lines
}

/// The lines of a heading.
pub fn print_heading(heading: &str) -> (lines: Vec<String>)
    ensures
        texts_of(lines@) == heading_lines(heading@),
{
    let mut rule = String::new();
    let width = heading.len();
    let mut i: usize = 0;
    while i < width
        invariant
            i <= width,
            rule@ == Seq::new(i as nat, |j: int| '='),
        decreases width - i,
    {
        rule.push('=');
        proof {
            assert(rule@ =~= Seq::new((i + 1) as nat, |j: int| '='));
        }
        i += 1;
    }
    let lines = vec![String::new(), heading.to_owned(), rule, String::new()];
    proof {
        assert(texts_of(lines@) =~= heading_lines(heading@));
    }
    lines
}

/// The lines that show one value of a watch under a label.
pub fn dump_value(label: &str, watch: &Watch, current_value: &WatchState) -> (lines: Vec<String>)
    requires
        watch@.wf(),
        current_value@.showable(),
    ensures
        texts_of(lines@) == value_lines(label@, watch@.location(), current_value@.text()),
{
    let value = current_value.to_string();
    let location = watch.location();
    let parts = split_lines(value.as_str());
    let mut lines: Vec<String> = Vec::new();
    if parts.len() > 1 {
        let mut i: usize = 0;
        while i < parts.len()
            invariant
                i <= parts@.len(),
                parts@.len() > 1,
                texts_of(parts@) == lines_of(value@),
                lines@.len() == i,
                forall|j: int|
                    0 <= j < i ==> (#[trigger] lines@[j])@ == value_lines(
                        label@,
                        location@,
                        value@,
                    )[j],
            decreases parts@.len() - i,
        {
            let mut line = label.to_owned();
            line.append("(");
            line.append(location.as_str());
            line.append(")[line ");
            push_number(&mut line, (i + 1) as u128, 10);
            line.append("] = ");
            line.append(parts[i].as_str());
            proof {
                assert(texts_of(parts@)[i as int] == parts@[i as int]@);
                assert(line@ =~= value_lines(label@, location@, value@)[i as int]);
            }
            lines.push(line);
            i += 1;
        }
        proof {
            assert(texts_of(parts@).len() == parts@.len());
            assert(texts_of(lines@) =~= value_lines(label@, location@, value@));
        }
    } else {
        let mut line = label.to_owned();
        line.append("(");
        line.append(location.as_str());
        line.append(") = ");
        line.append(value.as_str());
        lines.push(line);
        proof {
            assert(texts_of(parts@).len() == parts@.len());
            assert(texts_of(lines@) =~= value_lines(label@, location@, value@));
        }
    }
    lines
}

} // verus!
