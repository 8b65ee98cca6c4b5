//! The lines typed at the prompts: the URL command, the exit words and
//! the number picked from a menu.
use vstd::prelude::*;
use vstd::string::*;
use crate::text::{
    chars_of, eq_ignore_ascii_case, equal_ignoring_ascii_case, same_text, split_words, trim,
    trimmed, words,
};
use crate::url::{normalize_youtube_url, normalized_url};

verus! {

/// What a line typed at the main prompt asks for.
pub struct UserCommand {
    /// The URL, in its normalized form.
    pub url: String,
    /// Whether only the audio is wanted.
    pub audio_only: bool,
}

/// The first word of a line, or nothing when it has none.
pub open spec fn first_word(line: Seq<char>) -> Seq<char> {
    if words(line).len() > 0 {
        words(line)[0]
    } else {
        Seq::empty()
    }
}

/// Some word after the first is the `--audio-only` flag.
pub open spec fn asks_audio_only(line: Seq<char>) -> bool {
    exists|j: int| 1 <= j < words(line).len() && #[trigger] words(line)[j] == "--audio-only"@
}

/// Parses a line into its URL (the first word, normalized) and whether any later word
/// is `--audio-only`.
pub fn parse_user_command(input_line: &str) -> (c: UserCommand)
    ensures
        c.url@ == normalized_url(first_word(input_line@)),
        c.audio_only == asks_audio_only(input_line@),
{
    let tokens = split_words(input_line);
    let url_input: &str = if tokens.len() > 0 {
        tokens[0]
    } else {
        proof {
            reveal_strlit("");
        }
        ""
    };
    assert(url_input@ =~= first_word(input_line@));
    let mut audio_only = false;
    let mut i: usize = 1;
    while i < tokens.len()
        invariant
            tokens@.len() == words(input_line@).len(),
            forall|k: int| 0 <= k < tokens@.len() ==> #[trigger] tokens@[k]@ == words(input_line@)[k],
            1 <= i,
            i <= tokens@.len() || tokens@.len() == 0,
            audio_only == exists|j: int|
                1 <= j < i && j < words(input_line@).len() && #[trigger] words(input_line@)[j]
                    == "--audio-only"@,
        decreases tokens@.len() - i,
    {
        if same_text(tokens[i], "--audio-only") {
            audio_only = true;
        }
        i = i + 1;
    }
    assert(tokens@.len() == 0 || i == tokens@.len());
    proof {
        if audio_only {
            let j = choose|j: int|
                1 <= j < i && j < words(input_line@).len() && #[trigger] words(input_line@)[j]
                    == "--audio-only"@;
            assert(1 <= j < words(input_line@).len() && words(input_line@)[j] == "--audio-only"@);
        } else {
            assert forall|j: int| 1 <= j < words(input_line@).len() implies #[trigger] words(
                input_line@,
            )[j] != "--audio-only"@ by {
                assert(j < i);
            }
        }
    }
    let url = normalize_youtube_url(url_input);
    UserCommand { url, audio_only }
}

/// The line ends the program: it is empty, or `exit` or `quit` in any ASCII case.
pub open spec fn is_exit_line(line: Seq<char>) -> bool {
    line.len() == 0 || equal_ignoring_ascii_case(line, "exit"@) || equal_ignoring_ascii_case(
        line,
        "quit"@,
    )
}

/// Whether a (trimmed) line typed at the main prompt ends the program.
pub fn is_exit_command(input_line: &str) -> (b: bool)
    ensures
        b == is_exit_line(input_line@),
{
    input_line.unicode_len() == 0 || eq_ignore_ascii_case(input_line, "exit")
        || eq_ignore_ascii_case(input_line, "quit")
}

/// `s` is one or more ASCII digits.
pub open spec fn all_digits(s: Seq<char>) -> bool {
    s.len() > 0 && forall|i: int| 0 <= i < s.len() ==> '0' <= #[trigger] s[i] && s[i] <= '9'
}

/// The number that the decimal digits `s` write.
pub open spec fn digits_value(s: Seq<char>) -> nat
    decreases s.len(),
{
    if s.len() == 0 {
        0
    } else {
        digits_value(s.drop_last()) * 10 + ((s.last() as int) - ('0' as int)) as nat
    }
}

/// The number an unsigned integer literal writes (an optional `+`, then decimal digits),
/// as `str::parse` reads it for an unsigned type; `None` when it is not such a literal.
pub open spec fn unsigned_literal_value(s: Seq<char>) -> Option<nat> {
    let body = if s.len() > 0 && s[0] == '+' {
        s.drop_first()
    } else {
        s
    };
    if all_digits(body) {
        Some(digits_value(body))
    } else {
        None
    }
}

/// The `usize` that `s` writes, as `str::parse::<usize>` reads it; `None` when `s` is
/// not an unsigned literal or its value does not fit.
pub fn parse_usize(s: &str) -> (r: Option<usize>)
    ensures
        match unsigned_literal_value(s@) {
            Some(v) => if v <= usize::MAX {
                r == Some(v as usize)
            } else {
                r is None
            },
            None => r is None,
        },
{
    let v = chars_of(s);
    let n = v.len();
    let start: usize = if n > 0 && v[0] == '+' {
        1
    } else {
        0
    };
    let ghost body = if s@.len() > 0 && s@[0] == '+' {
        s@.drop_first()
    } else {
        s@
    };
    assert(body =~= s@.subrange(start as int, n as int));
    if start >= n {
        return None;
    }
    let mut value: usize = 0;
    let mut overflow = false;
    let mut i: usize = start;
    while i < n
        invariant
            v@ == s@,
            n == s@.len(),
            start <= i <= n,
            start < n,
            body == s@.subrange(start as int, n as int),
            body == (if s@.len() > 0 && s@[0] == '+' {
                s@.drop_first()
            } else {
                s@
            }),
            forall|t: int| start <= t < i ==> '0' <= #[trigger] v@[t] && v@[t] <= '9',
            !overflow ==> value as nat == digits_value(s@.subrange(start as int, i as int)),
            overflow ==> digits_value(s@.subrange(start as int, i as int)) > usize::MAX,
        decreases n - i,
    {
        let c = v[i];
        if !('0' <= c && c <= '9') {
            assert(body[i - start] == c);
            assert(!all_digits(body));
            return None;
        }
        let d = (c as u32 - '0' as u32) as usize;
        let ghost prev = s@.subrange(start as int, i as int);
        let ghost next = s@.subrange(start as int, i + 1);
        assert(next.drop_last() =~= prev);
        assert(next.last() == c);
        assert(digits_value(next) == digits_value(prev) * 10 + d);
        if !overflow {
            if value > (usize::MAX - d) / 10 {
                overflow = true;
                assert(digits_value(next) > usize::MAX) by (nonlinear_arith)
                    requires
                        value > (usize::MAX - d) / 10,
                        digits_value(next) == value * 10 + d,
                        d <= 9,
                ;
            } else {
                assert(value * 10 + d <= usize::MAX) by (nonlinear_arith)
                    requires
                        value <= (usize::MAX - d) / 10,
                        d <= 9,
                ;
                value = value * 10 + d;
            }
        } else {
            assert(digits_value(next) >= digits_value(prev)) by (nonlinear_arith)
                requires
                    digits_value(next) == digits_value(prev) * 10 + d,
            ;
        }
        i = i + 1;
    }
    assert(all_digits(body));
    if overflow {
        None
    } else {
        Some(value)
    }
}

/// The menu entry a typed line picks among `count` entries: the number it writes
/// (after trimming), when that is between 1 and `count`.
pub open spec fn picked_entry(line: Seq<char>, count: nat) -> Option<nat> {
    match unsigned_literal_value(trimmed(line)) {
        Some(v) => if 1 <= v <= count {
            Some(v)
        } else {
            None
        },
        None => None,
    }
}

/// Reads a menu choice among `count` entries from a typed line.
pub fn parse_choice(input_line: &str, count: usize) -> (r: Option<usize>)
    ensures
        match picked_entry(input_line@, count as nat) {
            Some(v) => r == Some(v as usize),
            None => r is None,
        },
{
    let t = trim(input_line);
    match parse_usize(t) {
        Some(choice) => {
            if choice == 0 || choice > count {
                None
            } else {
                Some(choice)
            }
        },
        None => None,
    }
}

} // verus!
