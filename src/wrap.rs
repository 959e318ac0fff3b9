use vstd::prelude::*;

use crate::measure::{is_metric, lemma_size_of, width_fn};

verus! {

/// The characters with Unicode's White_Space property.
pub open spec fn is_space(c: char) -> bool {
    let u = c as u32;
    ||| 0x09 <= u <= 0x0d
    ||| u == 0x20
    ||| u == 0x85
    ||| u == 0xa0
    ||| u == 0x1680
    ||| 0x2000 <= u <= 0x200a
    ||| u == 0x2028
    ||| u == 0x2029
    ||| u == 0x202f
    ||| u == 0x205f
    ||| u == 0x3000
}

/// Whether `c` is whitespace, as `char::is_whitespace` decides it.
pub fn is_whitespace(c: char) -> (r: bool)
    ensures
        r == is_space(c),
{
    let u = c as u32;
    (0x09 <= u && u <= 0x0d) || u == 0x20 || u == 0x85 || u == 0xa0 || u == 0x1680 || (0x2000
        <= u && u <= 0x200a) || u == 0x2028 || u == 0x2029 || u == 0x202f || u == 0x205f || u
        == 0x3000
}

/// The index of the first character at or after `i` whose prefix of `t` is
/// wider than `max`, or the length of `t` if there is none.
pub open spec fn first_overflow(m: spec_fn(Seq<char>) -> int, t: Seq<char>, max: int, i: int) -> int
    decreases t.len() - i,
{
    if i < 0 || i >= t.len() {
        t.len() as int
    } else if m(t.take(i + 1)) > max {
        i
    } else {
        first_overflow(m, t, max, i + 1)
    }
}

/// The index of the last whitespace character among the first `k` of `t`,
/// or -1 if there is none.
pub open spec fn last_space_before(t: Seq<char>, k: int) -> int
    decreases k,
{
    if k <= 0 {
        -1
    } else if is_space(t[k - 1]) {
        k - 1
    } else {
        last_space_before(t, k - 1)
    }
}

/// How many characters of `t` go on its first line. The line ends just after
/// the first character that makes it too wide if that character is
/// whitespace or no whitespace came before it, and just after the last
/// whitespace before it otherwise.
pub open spec fn break_len(m: spec_fn(Seq<char>) -> int, t: Seq<char>, max: int) -> int {
    let k = first_overflow(m, t, max, 0);
    let j = last_space_before(t, k);
    if is_space(t[k]) || j < 0 {
        k + 1
    } else {
        j + 1
    }
}

/// Greedy wrapping of `t` into lines no wider than `max` where possible.
pub open spec fn wrap_lines(m: spec_fn(Seq<char>) -> int, t: Seq<char>, max: int) -> Seq<Seq<char>>
    decreases t.len(),
    via wrap_lines_decreases
{
    if t.len() == 0 || m(t) <= max {
        seq![t]
    } else {
        let n = break_len(m, t, max);
        if n == t.len() {
            seq![t]
        } else {
            seq![t.take(n)] + wrap_lines(m, t.skip(n), max)
        }
    }
}

#[via_fn]
proof fn wrap_lines_decreases(m: spec_fn(Seq<char>) -> int, t: Seq<char>, max: int) {
    if t.len() != 0 && m(t) > max {
        lemma_break_len_bounds(m, t, max);
    }
}

proof fn lemma_first_overflow_bounds(m: spec_fn(Seq<char>) -> int, t: Seq<char>, max: int, i: int)
    requires
        0 <= i <= t.len(),
    ensures
        i <= first_overflow(m, t, max, i) <= t.len(),
        m(t) > max && i < t.len() ==> first_overflow(m, t, max, i) < t.len(),
        forall|j: int|
            i <= j < first_overflow(m, t, max, i) ==> m(#[trigger] t.take(j + 1)) <= max,
        first_overflow(m, t, max, i) < t.len() ==> m(t.take(first_overflow(m, t, max, i) + 1))
            > max,
    decreases t.len() - i,
{
    if i < t.len() {
        if i == t.len() - 1 {
            assert(t.take(i + 1) =~= t);
        }
        lemma_first_overflow_bounds(m, t, max, i + 1);
    }
}

proof fn lemma_last_space_before(t: Seq<char>, k: int)
    requires
        0 <= k <= t.len(),
    ensures
        -1 <= last_space_before(t, k) < k,
        last_space_before(t, k) >= 0 ==> is_space(t[last_space_before(t, k)]),
        forall|j: int| last_space_before(t, k) < j < k ==> !is_space(#[trigger] t[j]),
    decreases k,
{
    if k > 0 {
        lemma_last_space_before(t, k - 1);
    }
}

proof fn lemma_break_len_bounds(m: spec_fn(Seq<char>) -> int, t: Seq<char>, max: int)
    requires
        t.len() > 0,
        m(t) > max,
    ensures
        1 <= break_len(m, t, max) <= t.len(),
{
    lemma_first_overflow_bounds(m, t, max, 0);
    lemma_last_space_before(t, first_overflow(m, t, max, 0));
}

/// What makes a line acceptable: it fits; or it fits but for one trailing
/// whitespace character; or it is a single token, with no whitespace before
/// its last character.
pub open spec fn line_ok(m: spec_fn(Seq<char>) -> int, line: Seq<char>, max: int) -> bool {
    ||| m(line) <= max
    ||| is_space(line.last()) && m(line.drop_last()) <= max
    ||| forall|j: int| 0 <= j < line.len() - 1 ==> !is_space(#[trigger] line[j])
}

/// The lines that wrapping gives are, joined, the text itself.
pub open spec fn joined(lines: Seq<Seq<char>>) -> Seq<char>
    decreases lines.len(),
{
    if lines.len() == 0 {
        Seq::empty()
    } else {
        lines[0] + joined(lines.drop_first())
    }
}

proof fn lemma_first_line_ok(m: spec_fn(Seq<char>) -> int, t: Seq<char>, max: int)
    requires
        t.len() > 0,
        m(t) > max,
    ensures
        line_ok(m, t.take(break_len(m, t, max)), max),
{
    let k = first_overflow(m, t, max, 0);
    lemma_first_overflow_bounds(m, t, max, 0);
    lemma_last_space_before(t, k);
    let j = last_space_before(t, k);
    let line = t.take(break_len(m, t, max));
    if is_space(t[k]) && k > 0 {
        assert(line.drop_last() =~= t.take((k - 1) + 1));
    } else if j < 0 || is_space(t[k]) {
        assert forall|i: int| 0 <= i < line.len() - 1 implies !is_space(#[trigger] line[i]) by {
            assert(line[i] == t[i]);
        }
    } else {
        assert(line =~= t.take(j + 1));
    }
}

/// Every line that wrapping gives is non-empty and acceptable (fits, fits but
/// for a trailing whitespace character, or is one token too wide on its own),
/// and the lines joined give back the whole text: nothing is dropped.
pub proof fn lemma_wrap_lines_fit(m: spec_fn(Seq<char>) -> int, t: Seq<char>, max: int)
    requires
        t.len() > 0,
    ensures
        joined(wrap_lines(m, t, max)) == t,
        forall|i: int|
            0 <= i < wrap_lines(m, t, max).len() ==> (#[trigger] wrap_lines(m, t, max)[i]).len() > 0
                && line_ok(m, wrap_lines(m, t, max)[i], max),
    decreases t.len(),
{
    let w = wrap_lines(m, t, max);
    if m(t) <= max {
        assert(joined(w.drop_first()) == Seq::<char>::empty());
        assert(t + Seq::<char>::empty() =~= t);
    } else {
        lemma_break_len_bounds(m, t, max);
        lemma_first_line_ok(m, t, max);
        let n = break_len(m, t, max);
        if n == t.len() {
            assert(t.take(n) =~= t);
            assert(joined(w.drop_first()) == Seq::<char>::empty());
            assert(t + Seq::<char>::empty() =~= t);
        } else {
            lemma_wrap_lines_fit(m, t.skip(n), max);
            assert(w.drop_first() =~= wrap_lines(m, t.skip(n), max));
            assert(t.take(n) + t.skip(n) =~= t);
        }
    }
}

/// A text that already fits is wrapped to itself, as one line.
pub proof fn lemma_wrap_fitting_unchanged(m: spec_fn(Seq<char>) -> int, t: Seq<char>, max: int)
    requires
        m(t) <= max,
    ensures
        wrap_lines(m, t, max) == seq![t],
{
}

/// The text of each line.
pub open spec fn lines_view(lines: Seq<String>) -> Seq<Seq<char>> {
    lines.map_values(|l: String| l@)
}

/// Wraps `text` greedily into lines that fit `max_width` pixels when drawn
/// at `scale`, as `measure` measures them: a text that fits stays one line;
/// otherwise each line ends at the last whitespace that still fits, or, where
/// there is none or the first character that overflows is itself whitespace,
/// just after that character. An empty text gives one empty line.
pub fn wrap_text<F: Fn(&str, u32) -> (u32, u32)>(
    text: &str,
    measure: &F,
    scale: u32,
    max_width: u32,
) -> (lines: Vec<String>)
    requires
        is_metric(*measure),
    ensures
        lines_view(lines@) == wrap_lines(width_fn(*measure, scale), text@, max_width as int),
{
    let ghost m = width_fn(*measure, scale);
    let ghost max = max_width as int;
    let n = text.unicode_len();
    let whole = measure(text, scale);
    proof {
        lemma_size_of(*measure, text, scale, whole);
    }
    let mut lines: Vec<String> = Vec::new();
    if n == 0 || whole.0 <= max_width {
        lines.push(text.to_owned());
        proof {
            assert(lines_view(lines@) =~= wrap_lines(m, text@, max));
        }
        return lines;
    }
    let mut start: usize = 0;
    proof {
        assert(text@.skip(0) =~= text@);
        assert(lines_view(lines@) =~= Seq::<Seq<char>>::empty());
        assert(Seq::<Seq<char>>::empty() + wrap_lines(m, text@, max) =~= wrap_lines(m, text@, max));
    }
    loop
        invariant
            is_metric(*measure),
            m == width_fn(*measure, scale),
            max == max_width as int,
            n == text@.len(),
            start < n,
            lines_view(lines@) + wrap_lines(m, text@.skip(start as int), max) == wrap_lines(
                m,
                text@,
                max,
            ),
        decreases n - start,
    {
        let ghost t = text@.skip(start as int);
        let rest = text.substring_char(start, n);
        let size = measure(rest, scale);
        proof {
            assert(rest@ =~= t);
            lemma_size_of(*measure, rest, scale, size);
        }
        let ghost prev = lines@;
        if size.0 <= max_width {
            lines.push(rest.to_owned());
            proof {
                assert(lines_view(lines@) =~= lines_view(prev) + seq![t]);
            }
            return lines;
        }
        // scan for the first character that makes the line too wide
        let mut last_space: Option<usize> = None;
        let mut idx: usize = 0;
        let ghost k = first_overflow(m, t, max, 0);
        proof {
            lemma_first_overflow_bounds(m, t, max, 0);
        }
        let mut cut: usize = 0;
        loop
            invariant
                is_metric(*measure),
                m == width_fn(*measure, scale),
                max == max_width as int,
                n == text@.len(),
                start < n,
                t == text@.skip(start as int),
                k == first_overflow(m, t, max, 0),
                k < t.len(),
                m(t.take(k + 1)) > max,
                idx <= k,
                first_overflow(m, t, max, idx as int) == k,
                match last_space {
                    Some(j) => j as int == last_space_before(t, idx as int),
                    None => last_space_before(t, idx as int) == -1,
                },
            ensures
                cut == break_len(m, t, max),
            decreases k - idx,
        {
            let c = text.get_char(start + idx);
            let candidate = text.substring_char(start, start + idx + 1);
            let size = measure(candidate, scale);
            proof {
                assert(candidate@ =~= t.take(idx + 1));
                lemma_size_of(*measure, candidate, scale, size);
            }
            let space = is_whitespace(c);
            proof {
                assert(c == t[idx as int]);
            }
            if size.0 <= max_width {
                proof {
                    lemma_first_overflow_bounds(m, t, max, idx + 1);
                }
                if space {
                    last_space = Some(idx);
                }
                idx = idx + 1;
            } else {
                proof {
                    lemma_last_space_before(t, idx as int);
                }
                cut = match last_space {
                    Some(j) if !space => j + 1,
                    _ => idx + 1,
                };
                break;
            }
        }
        proof {
            lemma_break_len_bounds(m, t, max);
        }
        let line = text.substring_char(start, start + cut);
        lines.push(line.to_owned());
        proof {
            assert(line@ =~= t.take(cut as int));
            assert(lines_view(lines@) =~= lines_view(prev) + seq![t.take(cut as int)]);
            assert(t.skip(cut as int) =~= text@.skip(start + cut));
            if cut as int == t.len() {
                assert(t.take(cut as int) =~= t);
            } else {
                let tail = wrap_lines(m, t.skip(cut as int), max);
                assert(wrap_lines(m, t, max) =~= seq![t.take(cut as int)] + tail);
                assert(lines_view(lines@) + tail =~= lines_view(prev) + wrap_lines(m, t, max));
            }
        }
        start = start + cut;
        if start == n {
            return lines;
        }
    }
}

} // verus!
