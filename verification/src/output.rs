//! What becomes of the lines that a child writes: each is echoed to the
//! console as it is, and written to the redirect file without its control
//! sequences.

use vstd::prelude::*;
use vstd::string::StringExecFns;

use crate::task::opt_text;
use crate::text::texts;

verus! {

/// The escape sequences that colour and move: an escape or a control
/// sequence introducer, the intermediate characters, the parameters, and
/// the final character.
pub const REMOVE_ANSI: &'static str =
    "[\u{1b}\u{9b}][\\[()#;?]*(?:[0-9]{1,4}(?:;[0-9]{0,4})*)?[0-9A-PRZcf-nqry=><]";

/// Shift-out and shift-in.
pub const REMOVE_SHIFT_INOUT: &'static str = "[\u{0e}\u{0f}]";

/// What `regex::Regex::replace_all` makes of `haystack` when the regular
/// expression `pattern` is searched in it and each match replaced by
/// `replacement`; `None` where `regex::Regex::new` does not take `pattern`.
pub uninterp spec fn regex_replaced(
    pattern: Seq<char>,
    haystack: Seq<char>,
    replacement: Seq<char>,
) -> Option<Seq<char>>;

/// `regex::Regex::new` on `pattern`, then `regex::Regex::replace_all` on
/// `haystack` with `replacement`. The result is taken on trust from the
/// regular expression engine and only given a name. One thing more is
/// taken from the way the engine puts its result together, out of the
/// pieces of the haystack between the matches with the replacement in
/// their place: with an empty replacement the result is the haystack
/// without its matches, so it is no longer than the haystack, and as
/// long only where it is the haystack. And the engine takes the two
/// patterns of this module: both are written in the syntax that it
/// documents, with classes, counted repetition and a group that does not
/// capture.
#[verifier::external_body]
fn replace_all(pattern: &str, haystack: &str, replacement: &str) -> (r: Option<String>)
    ensures
        opt_text(r) == regex_replaced(pattern@, haystack@, replacement@),
        pattern@ == REMOVE_ANSI@ || pattern@ == REMOVE_SHIFT_INOUT@ ==> r is Some,
        replacement@.len() == 0 ==> (r matches Some(text) ==> text@.len() <= haystack@.len() && (
        text@.len() == haystack@.len() ==> text@ == haystack@)),
{
    match regex::Regex::new(pattern) {
        Ok(re) => Some(re.replace_all(haystack, replacement).into_owned()),
        Err(_) => None,
    }
}

/// `text` without the matches of `pattern`; `text` itself where the
/// pattern is not taken.
pub open spec fn erased(pattern: Seq<char>, text: Seq<char>) -> Seq<char> {
    match regex_replaced(pattern, text, Seq::empty()) {
        Some(rest) => rest,
        None => text,
    }
}

/// The character that shifts out to another character set.
pub const SHIFT_OUT: char = '\u{e}';

/// The character that shifts back in.
pub const SHIFT_IN: char = '\u{f}';

/// Shift-out or shift-in.
pub open spec fn is_shift(c: char) -> bool {
    c == SHIFT_OUT || c == SHIFT_IN
}

/// Whether no character of `text` is a shift character.
pub open spec fn shift_free(text: Seq<char>) -> bool {
    forall|i: int| 0 <= i < text.len() ==> !is_shift(#[trigger] text[i])
}

/// `text` without its shift characters.
pub open spec fn without_shifts(text: Seq<char>) -> Seq<char> {
    text.filter(|c: char| !is_shift(c))
}

/// A line after one pass: the escape sequences are taken out, then the
/// shift characters. What the regular expression for the shift
/// characters leaves is gone over once more, so that none remains
/// whatever the engine does.
pub open spec fn stripped_once(line: Seq<char>) -> Seq<char> {
    without_shifts(erased(REMOVE_SHIFT_INOUT@, erased(REMOVE_ANSI@, line)))
}

/// A line as it is written to a redirect file: passes are made over it
/// for as long as a pass shortens it. Taking a sequence or a shift
/// character out can bring the two halves of another sequence together;
/// the next pass takes that out.
pub open spec fn stripped(line: Seq<char>) -> Seq<char>
    decreases line.len(),
{
    if stripped_once(line).len() < line.len() {
        stripped(stripped_once(line))
    } else {
        line
    }
}

/// Whether no escape sequence is left in `text`: the engine takes the
/// pattern, and erasing its matches changes nothing.
pub open spec fn escape_free(text: Seq<char>) -> bool {
    regex_replaced(REMOVE_ANSI@, text, Seq::empty()) == Some(text)
}

/// Takes the matches of `pattern` out of `text`. What is left is no
/// longer than `text`, and as long only where nothing was taken out.
fn erase(pattern: &str, text: &str) -> (r: String)
    ensures
        r@ == erased(pattern@, text@),
        r@.len() <= text@.len(),
        r@.len() == text@.len() ==> r@ == text@,
        pattern@ == REMOVE_ANSI@ || pattern@ == REMOVE_SHIFT_INOUT@ ==> regex_replaced(
            pattern@,
            text@,
            Seq::empty(),
        ) == Some(r@),
{
    proof {
        reveal_strlit("");
        assert(""@ == Seq::<char>::empty());
    }
    match replace_all(pattern, text, "") {
        Some(rest) => rest,
        None => String::from_str(text),
    }
}

/// Copies `text` without its shift characters.
fn remove_shifts(text: &str) -> (r: String)
    ensures
        r@ == without_shifts(text@),
        shift_free(r@),
        r@.len() <= text@.len(),
        r@.len() == text@.len() ==> r@ == text@,
{
    let ghost kept = |c: char| !is_shift(c);
    let mut out = String::new();
    proof {
        reveal(Seq::filter);
        assert(text@.take(0).filter(kept) == Seq::<char>::empty());
    }
    for c in it: text.chars()
        invariant
            it.seq() == text@,
            kept == |c: char| !is_shift(c),
            out@ == text@.take(it.index()).filter(kept),
            shift_free(out@),
            out@.len() <= it.index(),
            out@.len() == it.index() ==> out@ == text@.take(it.index()),
    {
        proof {
            reveal(Seq::filter);
            assert(text@.take(it.index() + 1).drop_last() == text@.take(it.index()));
            assert(text@.take(it.index() + 1).last() == c);
        }
        if c != SHIFT_OUT && c != SHIFT_IN {
            out.push(c);
        }
    }
    assert(text@.take(text@.len() as int) == text@);
    out
}

/// Strips one line of its control sequences: what is handed back holds
/// no shift character, and no escape sequence is left to erase in it.
pub fn strip(line: &str) -> (r: String)
    ensures
        r@ == stripped(line@),
        shift_free(r@),
        escape_free(r@),
{
    let mut text = String::from_str(line);
    loop
        invariant
            stripped(text@) == stripped(line@),
        decreases text@.len(),
    {
        let no_color = erase(REMOVE_ANSI, text.as_str());
        let no_shift = erase(REMOVE_SHIFT_INOUT, no_color.as_str());
        let bare = remove_shifts(no_shift.as_str());
        assert(bare@ == stripped_once(text@));
        if *bare.as_str() == *text.as_str() {
            assert(no_color@ == text@);
            return bare;
        }
        assert(bare@.len() < text@.len());
        text = bare;
    }
}

/// What is written for one line, or for a whole stream: to the console,
/// and to the redirect file.
#[derive(Clone, Debug, PartialEq, Eq)]
pub struct Forwarded {
    pub console: Option<String>,
    pub file: Option<String>,
}

/// One line of a child's output. With `echo` it goes to the console as it
/// is; with `redirect` it goes to the file, stripped: without a shift
/// character, and with no escape sequence left to erase.
pub fn forward_line(line: &str, echo: bool, redirect: bool) -> (r: Forwarded)
    ensures
        opt_text(r.console) == if echo {
            Some(line@)
        } else {
            None
        },
        opt_text(r.file) == if redirect {
            Some(stripped(line@))
        } else {
            None
        },
        r.file matches Some(text) ==> shift_free(text@) && escape_free(text@),
{
    let console = if echo {
        Some(String::from_str(line))
    } else {
        None
    };
    let file = if redirect {
        Some(strip(line))
    } else {
        None
    };
    Forwarded { console, file }
}

/// The lines one after the other, each ended by a line feed.
pub open spec fn joined(lines: Seq<Seq<char>>) -> Seq<char>
    decreases lines.len(),
{
    if lines.len() == 0 {
        Seq::empty()
    } else {
        joined(lines.drop_last()) + lines.last().push('\n')
    }
}

/// Each line stripped.
pub open spec fn all_stripped(lines: Seq<Seq<char>>) -> Seq<Seq<char>> {
    lines.map_values(|line: Seq<char>| stripped(line))
}

/// Lines without shift characters stay without them when they are joined.
pub proof fn lemma_joined_is_shift_free(lines: Seq<Seq<char>>)
    requires
        forall|k: int| 0 <= k < lines.len() ==> shift_free(#[trigger] lines[k]),
    ensures
        shift_free(joined(lines)),
    decreases lines.len(),
{
    if lines.len() > 0 {
        let before = lines.drop_last();
        assert forall|k: int| 0 <= k < before.len() implies shift_free(#[trigger] before[k]) by {
            assert(before[k] == lines[k]);
        }
        lemma_joined_is_shift_free(before);
        let head = joined(before);
        let tail = lines.last().push('\n');
        assert(shift_free(lines[lines.len() - 1]));
        assert forall|i: int| 0 <= i < joined(lines).len() implies !is_shift(
            #[trigger] joined(lines)[i],
        ) by {
            if i < head.len() {
                assert(joined(lines)[i] == head[i]);
            } else {
                assert(joined(lines)[i] == tail[i - head.len()]);
                if i - head.len() < lines.last().len() {
                    assert(tail[i - head.len()] == lines.last()[i - head.len()]);
                }
            }
        }
    }
}

/// Whether no escape sequence is left in any of the lines.
pub open spec fn escape_free_lines(lines: Seq<Seq<char>>) -> bool {
    forall|k: int| 0 <= k < lines.len() ==> escape_free(#[trigger] lines[k])
}

/// The whole output of one stream of a child, line by line. The console
/// gets every line as it is, the redirect file every line stripped; both
/// hold the lines in the order in which they came. What goes to the file
/// holds no shift character, and in none of its lines is an escape
/// sequence left to erase.
pub fn handle_output(lines: &Vec<String>, echo: bool, redirect: bool) -> (r: Forwarded)
    ensures
        opt_text(r.console) == if echo {
            Some(joined(texts(lines@)))
        } else {
            None
        },
        opt_text(r.file) == if redirect {
            Some(joined(all_stripped(texts(lines@))))
        } else {
            None
        },
        r.file matches Some(text) ==> shift_free(text@),
        redirect ==> escape_free_lines(all_stripped(texts(lines@))),
{
    let mut console = String::new();
    let mut file = String::new();
    let mut i: usize = 0;
    while i < lines.len()
        invariant
            i <= lines.len(),
            echo ==> console@ == joined(texts(lines@).take(i as int)),
            redirect ==> file@ == joined(all_stripped(texts(lines@)).take(i as int)),
            redirect ==> forall|k: int|
                0 <= k < i ==> shift_free(#[trigger] all_stripped(texts(lines@))[k])
                    && escape_free(all_stripped(texts(lines@))[k]),
        decreases lines.len() - i,
    {
        let ghost all = texts(lines@);
        let ghost bare = all_stripped(all);
        let line = lines[i].as_str();
        let forwarded = forward_line(line, echo, redirect);
        assert(all.take(i + 1).drop_last() == all.take(i as int));
        assert(bare.take(i + 1).drop_last() == bare.take(i as int));
        assert(all.take(i + 1).last() == line@);
        assert(bare.take(i + 1).last() == stripped(line@));
        match forwarded.console {
            Some(text) => {
                console.append(text.as_str());
                console.push('\n');
            },
            None => {},
        }
        match forwarded.file {
            Some(text) => {
                file.append(text.as_str());
                file.push('\n');
            },
            None => {},
        }
        i = i + 1;
    }
    assert(texts(lines@).take(lines@.len() as int) == texts(lines@));
    assert(all_stripped(texts(lines@)).take(lines@.len() as int) == all_stripped(texts(lines@)));
    proof {
        if redirect {
            lemma_joined_is_shift_free(all_stripped(texts(lines@)));
        }
    }
    Forwarded {
        console: if echo {
            Some(console)
        } else {
            None
        },
        file: if redirect {
            Some(file)
        } else {
            None
        },
    }
}

} // verus!
