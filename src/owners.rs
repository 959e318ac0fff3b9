use vstd::prelude::*;

use crate::text::chars_of;

verus! {

/// `s` cut at each comma.
pub open spec fn split_commas(s: Seq<char>) -> Seq<Seq<char>>
    decreases s.len(),
{
    if s.len() == 0 {
        seq![Seq::empty()]
    } else {
        let before = split_commas(s.drop_last());
        if s.last() == ',' {
            before.push(Seq::empty())
        } else {
            before.update(before.len() - 1, before.last().push(s.last()))
        }
    }
}

pub open spec fn is_digit(c: char) -> bool {
    48 <= c as u32 <= 57
}

/// The number that a run of decimal digits stands for.
pub open spec fn digits_value(d: Seq<char>) -> nat
    decreases d.len(),
{
    if d.len() == 0 {
        0
    } else {
        digits_value(d.drop_last()) * 10 + (d.last() as u32 - 48) as nat
    }
}

/// The digits of a number as `u64`'s parser reads it: after an optional `+`.
pub open spec fn unsigned_digits(p: Seq<char>) -> Seq<char> {
    if p.len() > 0 && p[0] == '+' {
        p.drop_first()
    } else {
        p
    }
}

/// `p` is a number that fits a `u64`: an optional `+` and at least one
/// decimal digit, nothing else.
pub open spec fn is_u64_text(p: Seq<char>) -> bool {
    let d = unsigned_digits(p);
    &&& d.len() > 0
    &&& forall|i: int| 0 <= i < d.len() ==> is_digit(#[trigger] d[i])
    &&& digits_value(d) <= u64::MAX
}

proof fn lemma_split_commas_nonempty(s: Seq<char>)
    ensures
        split_commas(s).len() >= 1,
    decreases s.len(),
{
    if s.len() > 0 {
        lemma_split_commas_nonempty(s.drop_last());
    }
}

/// Reads one number as `u64`'s parser does; `None` unless `is_u64_text`.
fn parse_u64(p: &Vec<char>) -> (r: Option<u64>)
    ensures
        r is Some <==> is_u64_text(p@),
        r matches Some(v) ==> v == digits_value(unsigned_digits(p@)),
{
    let start: usize = if p.len() > 0 && p[0] == '+' {
        1
    } else {
        0
    };
    let ghost d = unsigned_digits(p@);
    proof {
        assert(d =~= p@.skip(start as int));
    }
    if start == p.len() {
        return None;
    }
    let mut value: u64 = 0;
    let mut i = start;
    while i < p.len()
        invariant
            start <= i <= p@.len(),
            d == unsigned_digits(p@),
            d == p@.skip(start as int),
            d.len() > 0,
            forall|j: int| 0 <= j < i - start ==> is_digit(#[trigger] d[j]),
            value == digits_value(d.take(i - start)),
        decreases p@.len() - i,
    {
        let c = p[i];
        let code = c as u32;
        proof {
            assert(d[i - start] == c);
        }
        if code < 48 || code > 57 {
            proof {
                assert(!is_digit(d[i - start]));
            }
            return None;
        }
        let digit = (code - 48) as u64;
        proof {
            assert(d.take(i + 1 - start).drop_last() =~= d.take(i - start));
        }
        let wide = (value as u128) * 10 + digit as u128;
        if wide > u64::MAX as u128 {
            proof {
                if forall|j: int| 0 <= j < d.len() ==> is_digit(#[trigger] d[j]) {
                    lemma_prefix_value_bound(d, (i + 1 - start) as int);
                }
            }
            return None;
        }
        value = wide as u64;
        i = i + 1;
    }
    proof {
        assert(d.take(i - start) =~= d);
    }
    Some(value)
}

/// A longer run of digits is worth at least as much as its prefix.
proof fn lemma_prefix_value_bound(d: Seq<char>, k: int)
    requires
        0 <= k <= d.len(),
        forall|i: int| 0 <= i < d.len() ==> is_digit(#[trigger] d[i]),
    ensures
        digits_value(d.take(k)) <= digits_value(d),
    decreases d.len() - k,
{
    if k < d.len() {
        lemma_prefix_value_bound(d, k + 1);
        assert(d.take(k + 1).drop_last() =~= d.take(k));
    } else {
        assert(d.take(k) =~= d);
    }
}

/// Reads a comma-separated list of user ids. Gives every id in order, or
/// `None` where some piece is not a number that fits a `u64`.
pub fn parse_owner_ids(s: &str) -> (r: Option<Vec<u64>>)
    ensures
        r is Some <==> forall|i: int|
            0 <= i < split_commas(s@).len() ==> is_u64_text(#[trigger] split_commas(s@)[i]),
        r matches Some(ids) ==> ids@.len() == split_commas(s@).len() && forall|i: int|
            0 <= i < ids@.len() ==> ids@[i] == digits_value(
                unsigned_digits(#[trigger] split_commas(s@)[i]),
            ),
{
    let v = chars_of(s);
    let mut ids: Vec<u64> = Vec::new();
    let mut piece: Vec<char> = Vec::new();
    let mut i: usize = 0;
    proof {
        assert(v@.take(0) =~= Seq::<char>::empty());
        assert(split_commas(v@.take(0)).drop_last().push(piece@) =~= split_commas(v@.take(0)));
    }
    while i < v.len()
        invariant
            v@ == s@,
            i <= v@.len(),
            split_commas(v@.take(i as int)) == split_commas(v@.take(i as int)).drop_last().push(
                piece@,
            ),
            ids@.len() == split_commas(v@.take(i as int)).len() - 1,
            forall|j: int|
                0 <= j < ids@.len() ==> is_u64_text(#[trigger] split_commas(v@.take(i as int))[j])
                    && ids@[j] == digits_value(unsigned_digits(split_commas(v@.take(i as int))[j])),
        decreases v@.len() - i,
    {
        let ghost pieces = split_commas(v@.take(i as int));
        let ghost before = piece@;
        proof {
            lemma_split_commas_nonempty(v@.take(i as int));
            assert(v@.take(i + 1).drop_last() =~= v@.take(i as int));
        }
        if v[i] == ',' {
            proof {
                assert(split_commas(v@.take(i + 1)) == pieces.push(Seq::empty()));
            }
            match parse_u64(&piece) {
                Some(id) => {
                    ids.push(id);
                },
                None => {
                    proof {
                        lemma_split_commas_prefix(s@, i + 1);
                        assert(split_commas(s@)[ids@.len() as int] == before);
                    }
                    return None;
                },
            }
            piece = Vec::new();
            proof {
                let next = pieces.push(Seq::empty());
                assert(next.drop_last().push(piece@) =~= next);
            }
        } else {
            piece.push(v[i]);
            proof {
                let next = pieces.update(pieces.len() - 1, pieces.last().push(v@[i as int]));
                assert(split_commas(v@.take(i + 1)) == next);
                assert(next.drop_last() =~= pieces.drop_last());
                assert(next.drop_last().push(piece@) =~= next);
            }
        }
        i = i + 1;
    }
    proof {
        assert(v@.take(i as int) =~= v@);
    }
    let ghost last = split_commas(s@).len() - 1;
    proof {
        assert(split_commas(s@)[last] == piece@);
    }
    match parse_u64(&piece) {
        Some(id) => {
            ids.push(id);
            proof {
                assert(ids@.len() == split_commas(s@).len());
                assert(forall|i: int|
                    0 <= i < split_commas(s@).len() ==> is_u64_text(#[trigger] split_commas(s@)[i])
                        && ids@[i] == digits_value(unsigned_digits(split_commas(s@)[i])));
            }
            Some(ids)
        },
        None => {
            proof {
                assert(!is_u64_text(split_commas(s@)[last]));
            }
            None
        },
    }
}

/// The pieces before the last comma of a prefix are pieces of the whole.
proof fn lemma_split_commas_prefix(s: Seq<char>, k: int)
    requires
        0 <= k <= s.len(),
    ensures
        split_commas(s.take(k)).len() <= split_commas(s).len(),
        forall|j: int|
            0 <= j < split_commas(s.take(k)).len() - 1 ==> #[trigger] split_commas(s)[j]
                == split_commas(s.take(k))[j],
    decreases s.len() - k,
{
    if k < s.len() {
        lemma_split_commas_prefix(s, k + 1);
        lemma_split_commas_nonempty(s.take(k));
        assert(s.take(k + 1).drop_last() =~= s.take(k));
    } else {
        assert(s.take(k) =~= s);
    }
}

} // verus!
