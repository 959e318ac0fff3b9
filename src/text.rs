use vstd::prelude::*;

use crate::date::Date;
use crate::wrap::{is_space, is_whitespace};

verus! {

/// Opening curly quotation mark.
pub const OPEN_QUOTE: char = '\u{201C}';

/// Closing curly quotation mark.
pub const CLOSE_QUOTE: char = '\u{201D}';

/// Relies on `String`'s `FromIterator<char>`: the string holds the characters
/// in order.
#[verifier::external_body]
pub(crate) fn string_from_chars(chars: Vec<char>) -> (r: String)
    ensures
        r@ == chars@,
{
    String::from_iter(chars)
}

/// The characters of `s`, in order.
pub fn chars_of(s: &str) -> (r: Vec<char>)
    ensures
        r@ == s@,
{
    let n = s.unicode_len();
    let mut out: Vec<char> = Vec::with_capacity(n);
    let mut i: usize = 0;
    while i < n
        invariant
            n == s@.len(),
            i <= n,
            out@ == s@.take(i as int),
        decreases n - i,
    {
        out.push(s.get_char(i));
        i = i + 1;
        proof {
            assert(out@ =~= s@.take(i as int));
        }
    }
    proof {
        assert(s@.take(n as int) =~= s@);
    }
    out
}

/// `s` without its leading whitespace.
pub open spec fn trim_start(s: Seq<char>) -> Seq<char>
    decreases s.len(),
{
    if s.len() > 0 && is_space(s[0]) {
        trim_start(s.drop_first())
    } else {
        s
    }
}

/// `s` without its trailing whitespace.
pub open spec fn trim_end(s: Seq<char>) -> Seq<char>
    decreases s.len(),
{
    if s.len() > 0 && is_space(s.last()) {
        trim_end(s.drop_last())
    } else {
        s
    }
}

/// `s` without leading or trailing whitespace.
pub open spec fn trim(s: Seq<char>) -> Seq<char> {
    trim_end(trim_start(s))
}

/// `s` with its line breaks (`\n` and `\r\n`) taken out, so that its lines
/// run on as one.
pub open spec fn join_lines(s: Seq<char>) -> Seq<char>
    decreases s.len(),
{
    if s.len() == 0 {
        s
    } else if s[0] == '\n' {
        join_lines(s.drop_first())
    } else if s[0] == '\r' && s.len() > 1 && s[1] == '\n' {
        join_lines(s.skip(2))
    } else {
        seq![s[0]] + join_lines(s.drop_first())
    }
}

pub open spec fn is_opening_mark(c: char) -> bool {
    c == '\'' || c == '"' || c == OPEN_QUOTE
}

pub open spec fn is_closing_mark(c: char) -> bool {
    c == '\'' || c == '"' || c == CLOSE_QUOTE
}

/// `s` without one leading and one trailing quotation mark, where present.
pub open spec fn strip_marks(s: Seq<char>) -> Seq<char> {
    let a = if s.len() > 0 && is_opening_mark(s[0]) {
        s.drop_first()
    } else {
        s
    };
    if a.len() > 0 && is_closing_mark(a.last()) {
        a.drop_last()
    } else {
        a
    }
}

/// The quote as it is shown: trimmed, on one line, its own outer quotation
/// marks replaced by one pair of curly ones.
pub open spec fn quote_text(s: Seq<char>) -> Seq<char> {
    seq![OPEN_QUOTE] + strip_marks(join_lines(trim(s))) + seq![CLOSE_QUOTE]
}

/// The author as it is shown: trimmed, on one line, without a leading dash
/// and the whitespace after it.
pub open spec fn author_text(s: Seq<char>) -> Seq<char> {
    let a = join_lines(trim(s));
    if a.len() > 0 && a[0] == '-' {
        trim_start(a.drop_first())
    } else {
        a
    }
}

/// The index of the first character of `s` at or after `i` that is not
/// whitespace, and what trimming the start leaves is the rest from there.
fn skip_spaces(s: &Vec<char>, i: usize) -> (r: usize)
    requires
        i <= s@.len(),
    ensures
        i <= r <= s@.len(),
        trim_start(s@.skip(i as int)) == s@.skip(r as int),
{
    let mut j = i;
    while j < s.len() && is_whitespace(s[j])
        invariant
            i <= j <= s@.len(),
            trim_start(s@.skip(i as int)) == trim_start(s@.skip(j as int)),
        decreases s@.len() - j,
    {
        proof {
            assert(s@.skip(j as int).drop_first() =~= s@.skip(j + 1));
        }
        j = j + 1;
    }
    j
}

/// The length of what is left of the first `end` characters of `s` once
/// trailing whitespace is trimmed.
fn trimmed_end(s: &Vec<char>, start: usize, end: usize) -> (r: usize)
    requires
        start <= end <= s@.len(),
    ensures
        start <= r <= end,
        trim_end(s@.subrange(start as int, end as int)) == s@.subrange(start as int, r as int),
{
    let mut j = end;
    while j > start && is_whitespace(s[j - 1])
        invariant
            start <= j <= end,
            end <= s@.len(),
            trim_end(s@.subrange(start as int, end as int)) == trim_end(
                s@.subrange(start as int, j as int),
            ),
        decreases j,
    {
        proof {
            assert(s@.subrange(start as int, j as int).drop_last() =~= s@.subrange(
                start as int,
                j - 1,
            ));
        }
        j = j - 1;
    }
    j
}

/// `s` trimmed, with its line breaks taken out.
fn trimmed_single_line(s: &str) -> (r: Vec<char>)
    ensures
        r@ == join_lines(trim(s@)),
{
    let v = chars_of(s);
    let start = skip_spaces(&v, 0);
    let end = trimmed_end(&v, start, v.len());
    proof {
        assert(v@.skip(0) =~= v@);
        assert(v@.skip(start as int) =~= v@.subrange(start as int, v@.len() as int));
    }
    let ghost t = v@.subrange(start as int, end as int);
    let mut out: Vec<char> = Vec::new();
    let mut i = start;
    while i < end
        invariant
            start <= i <= end,
            end <= v@.len(),
            t == v@.subrange(start as int, end as int),
            out@ + join_lines(v@.subrange(i as int, end as int)) == join_lines(t),
        decreases end - i,
    {
        let ghost rest = v@.subrange(i as int, end as int);
        let ghost before = out@;
        if v[i] == '\n' {
            proof {
                assert(rest.drop_first() =~= v@.subrange(i + 1, end as int));
            }
            i = i + 1;
        } else if v[i] == '\r' && i + 1 < end && v[i + 1] == '\n' {
            proof {
                assert(rest.skip(2) =~= v@.subrange(i + 2, end as int));
            }
            i = i + 2;
        } else {
            out.push(v[i]);
            proof {
                assert(rest.drop_first() =~= v@.subrange(i + 1, end as int));
                assert(out@ + join_lines(rest.drop_first()) =~= before + (seq![rest[0]] + join_lines(
                    rest.drop_first(),
                )));
            }
            i = i + 1;
        }
    }
    proof {
        assert(v@.subrange(end as int, end as int) =~= Seq::<char>::empty());
        assert(out@ + Seq::<char>::empty() =~= out@);
    }
    out
}

/// Prepares a quote for display: trims it, runs its lines together, strips
/// one leading and one trailing quotation mark (straight or curly) where
/// present, and wraps the rest in a pair of curly quotation marks.
pub fn normalize_quote(quote: &str) -> (r: String)
    ensures
        r@ == quote_text(quote@),
{
    let v = trimmed_single_line(quote);
    let mut start: usize = 0;
    if v.len() > 0 && (v[0] == '\'' || v[0] == '"' || v[0] == OPEN_QUOTE) {
        start = 1;
    }
    let mut end: usize = v.len();
    if end > start && (v[end - 1] == '\'' || v[end - 1] == '"' || v[end - 1] == CLOSE_QUOTE) {
        end = end - 1;
    }
    let mut out: Vec<char> = Vec::new();
    out.push(OPEN_QUOTE);
    let mut i = start;
    while i < end
        invariant
            start <= i <= end <= v@.len(),
            out@ == seq![OPEN_QUOTE] + v@.subrange(start as int, i as int),
        decreases end - i,
    {
        out.push(v[i]);
        i = i + 1;
        proof {
            assert(out@ =~= seq![OPEN_QUOTE] + v@.subrange(start as int, i as int));
        }
    }
    out.push(CLOSE_QUOTE);
    proof {
        let a = if v@.len() > 0 && is_opening_mark(v@[0]) {
            v@.drop_first()
        } else {
            v@
        };
        assert(a =~= v@.subrange(start as int, v@.len() as int));
        if a.len() > 0 && is_closing_mark(a.last()) {
            assert(a.drop_last() =~= v@.subrange(start as int, end as int));
        } else {
            assert(a =~= v@.subrange(start as int, end as int));
        }
        assert(out@ =~= quote_text(quote@));
    }
    string_from_chars(out)
}

/// Prepares an author's name for display: trims it, runs its lines together,
/// and strips a leading dash with the whitespace after it.
pub fn normalize_author(author: &str) -> (r: String)
    ensures
        r@ == author_text(author@),
{
    let v = trimmed_single_line(author);
    let mut start: usize = 0;
    if v.len() > 0 && v[0] == '-' {
        start = skip_spaces(&v, 1);
        proof {
            assert(v@.drop_first() =~= v@.skip(1));
        }
    } else {
        proof {
            assert(v@.skip(0) =~= v@);
        }
    }
    let mut out: Vec<char> = Vec::new();
    let mut i = start;
    while i < v.len()
        invariant
            start <= i <= v@.len(),
            out@ == v@.subrange(start as int, i as int),
        decreases v@.len() - i,
    {
        out.push(v[i]);
        i = i + 1;
        proof {
            assert(out@ =~= v@.subrange(start as int, i as int));
        }
    }
    proof {
        assert(out@ =~= v@.skip(start as int));
    }
    string_from_chars(out)
}

/// The attribution line: the author as shown, a comma and a space, then the
/// date.
pub open spec fn attribution_of(author: Seq<char>, date: Seq<char>) -> Seq<char> {
    author_text(author) + seq![',', ' '] + date
}

/// Formats the attribution line `"{author}, {DD/MM/YYYY}"`, the author
/// prepared as `normalize_author` does.
pub fn format_attribution(author: &str, date: &Date) -> (r: String)
    requires
        date.valid(),
    ensures
        r@ == attribution_of(author@, date.text()),
{
    let mut line = normalize_author(author);
    line.append(", ");
    let shown = date.format();
    line.append(shown.as_str());
    proof {
        reveal_strlit(", ");
        assert(line@ =~= attribution_of(author@, date.text()));
    }
    line
}

} // verus!
