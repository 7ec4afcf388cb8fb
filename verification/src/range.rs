//! Queue ranges and indices parsed from `"N"` or `"N:M"` text.
use vstd::prelude::*;

use crate::Error;
use crate::text::all_digits;
use crate::text::digits_to_nat;
use crate::text::digits_value;
use crate::text::parse_unsigned;
use crate::time::split_colon;
use crate::time::lemma_split_colon_nonempty;

verus! {

/// A colon-separated field's value when it reads as a `u32` the way
/// `str::parse` would (optional `+`, then digits), `None` otherwise.
pub open spec fn field_u32(p: Seq<char>) -> Option<u32> {
    match parse_unsigned(p) {
        Some(v) => if v <= u32::MAX {
            Some(v as u32)
        } else {
            None
        },
        None => None,
    }
}

/// What parsing a range-or-index string yields: `(start, end, is_range)`,
/// or `None` when the text is rejected. A single index `N` spans
/// `[N, u32::MAX)` and is not a range; `N:M` demands `N < M`.
pub open spec fn parse_range(s: Seq<char>) -> Option<(u32, u32, bool)> {
    let ps = split_colon(s);
    if ps.len() == 1 {
        match field_u32(ps[0]) {
            Some(v) => Some((v, u32::MAX, false)),
            None => None,
        }
    } else if ps.len() == 2 {
        match (field_u32(ps[0]), field_u32(ps[1])) {
            (Some(a), Some(b)) => if a < b {
                Some((a, b, true))
            } else {
                None
            },
            _ => None,
        }
    } else {
        None
    }
}

/// Either a half-open range or a single index, parsed from a string.
///
/// A valid string is a single unsigned integer (an index) or two of them
/// separated by a colon (a range's start and end, with start strictly
/// below end). `index` always equals `range.start`.
pub struct Parser {
    pub range: core::ops::Range<u32>,
    pub index: u32,
    pub is_range: bool,
}

/// The current field while scanning: nothing yet, a lone sign, a value in
/// `u32` range, or text no `u32` parse accepts.
enum FieldState {
    Empty,
    SignOnly,
    Value,
    Bad,
}

impl Parser {
    /// Parses `"N"` or `"N:M"`; every other shape is `InvalidRange`.
    pub fn new(potential_range: &str) -> (r: Result<Parser, Error>)
        ensures
            match r {
                Ok(p) => {
                    &&& parse_range(potential_range@) == Some(
                        (p.range.start, p.range.end, p.is_range),
                    )
                    &&& p.index == p.range.start
                },
                Err(e) => {
                    &&& parse_range(potential_range@) is None
                    &&& e is InvalidRange
                },
            },
    {
        let n = potential_range.unicode_len();
        let mut vals: Vec<u32> = Vec::new();
        let mut completed_ok = true;
        let ghost mut bad_k: int = 0;
        let mut st = FieldState::Empty;
        let mut cur_val: u64 = 0;
        let mut j: usize = 0;
        while j < n
            invariant
                j <= n,
                n == potential_range@.len(),
                split_colon(potential_range@.subrange(0, j as int)).len() >= 1,
                completed_ok ==> (forall|k: int|
                    0 <= k < split_colon(potential_range@.subrange(0, j as int)).len() - 1
                        ==> field_u32(
                        #[trigger] split_colon(potential_range@.subrange(0, j as int))[k],
                    ) is Some),
                !completed_ok ==> {
                    &&& 0 <= bad_k < split_colon(potential_range@.subrange(0, j as int)).len() - 1
                    &&& field_u32(split_colon(potential_range@.subrange(0, j as int))[bad_k])
                        is None
                },
                completed_ok ==> vals@.len() == vstd::math::min(
                    split_colon(potential_range@.subrange(0, j as int)).len() - 1,
                    2,
                ),
                completed_ok ==> (forall|k: int|
                    0 <= k < vals@.len() ==> Some(#[trigger] vals@[k]) == field_u32(
                        split_colon(potential_range@.subrange(0, j as int))[k],
                    )),
                vals@.len() <= 2,
                ({
                    let lp = split_colon(potential_range@.subrange(0, j as int)).last();
                    match st {
                        FieldState::Empty => lp.len() == 0,
                        FieldState::SignOnly => lp =~= seq!['+'],
                        FieldState::Value => cur_val <= u32::MAX && field_u32(lp) == Some(
                            cur_val as u32,
                        ),
                        FieldState::Bad => lp.len() > 0 && !(lp =~= seq!['+']) && field_u32(
                            lp,
                        ) is None,
                    }
                }),
            decreases n - j,
        {
            let ghost pre = potential_range@.subrange(0, j as int);
            let ghost post = potential_range@.subrange(0, j as int + 1);
            let ghost lp = split_colon(pre).last();
            proof {
                lemma_split_colon_nonempty(pre);
                assert(post.drop_last() =~= pre);
                assert(post.last() == potential_range@[j as int]);
            }
            let c = potential_range.get_char(j);
            if c == ':' {
                proof {
                    assert(split_colon(post) =~= split_colon(pre).push(Seq::<char>::empty()));
                    assert(forall|k: int|
                        0 <= k < split_colon(pre).len() ==> #[trigger] split_colon(post)[k]
                            == split_colon(pre)[k]);
                    assert(split_colon(pre)[split_colon(pre).len() - 1] == lp);
                }
                let field_good = matches!(st, FieldState::Value);
                if field_good && completed_ok {
                    if vals.len() < 2 {
                        vals.push(cur_val as u32);
                    }
                } else if !field_good {
                    if completed_ok {
                        proof {
                            bad_k = split_colon(pre).len() - 1;
                            match st {
                                FieldState::Empty => {
                                    assert(field_u32(lp) is None);
                                },
                                FieldState::SignOnly => {
                                    assert(lp =~= seq!['+']);
                                    assert(lp[0] == '+');
                                    assert(lp.subrange(1, lp.len() as int) =~= Seq::<
                                        char,
                                    >::empty());
                                    assert(field_u32(lp) is None);
                                },
                                _ => {
                                    assert(field_u32(lp) is None);
                                },
                            }
                        }
                    }
                    completed_ok = false;
                }
                st = FieldState::Empty;
                cur_val = 0;
            } else {
                proof {
                    let r = split_colon(pre);
                    assert(split_colon(post) == r.update(
                        r.len() - 1,
                        r.last().push(potential_range@[j as int]),
                    ));
                    assert(split_colon(post).last() == lp.push(potential_range@[j as int]));
                    assert(split_colon(post).len() == r.len());
                    assert(forall|k: int|
                        0 <= k < r.len() - 1 ==> #[trigger] split_colon(post)[k] == r[k]);
                }
                let u = c as u32;
                let is_digit = 48 <= u && u <= 57;
                let ghost newlp = lp.push(potential_range@[j as int]);
                match st {
                    FieldState::Empty => {
                        if c == '+' {
                            st = FieldState::SignOnly;
                            proof {
                                assert(newlp =~= seq!['+']);
                            }
                        } else if is_digit {
                            cur_val = (u - 48) as u64;
                            st = FieldState::Value;
                            proof {
                                assert(newlp =~= seq![potential_range@[j as int]]);
                                crate::text::lemma_digits_to_nat_push(
                                    Seq::<char>::empty(),
                                    potential_range@[j as int],
                                );
                                assert(newlp[0] != '+');
                                assert(all_digits(newlp));
                            }
                        } else {
                            st = FieldState::Bad;
                            proof {
                                assert(newlp[0] == potential_range@[j as int]);
                                assert(newlp[0] != '+');
                                assert(!all_digits(newlp));
                            }
                        }
                    },
                    FieldState::SignOnly => {
                        if is_digit {
                            cur_val = (u - 48) as u64;
                            st = FieldState::Value;
                            proof {
                                assert(newlp =~= seq!['+', potential_range@[j as int]]);
                                let body = newlp.subrange(1, newlp.len() as int);
                                assert(body =~= seq![potential_range@[j as int]]);
                                crate::text::lemma_digits_to_nat_push(
                                    Seq::<char>::empty(),
                                    potential_range@[j as int],
                                );
                                assert(all_digits(body));
                            }
                        } else {
                            st = FieldState::Bad;
                            proof {
                                assert(newlp[0] == '+');
                                let body = newlp.subrange(1, newlp.len() as int);
                                assert(body[0] == potential_range@[j as int]);
                                assert(!crate::text::is_digit_char(body[0]));
                                assert(!all_digits(body));
                            }
                        }
                    },
                    FieldState::Value => {
                        proof {
                            if lp[0] == '+' {
                                let body = lp.subrange(1, lp.len() as int);
                                let newbody = newlp.subrange(1, newlp.len() as int);
                                assert(newbody =~= body.push(potential_range@[j as int]));
                                crate::text::lemma_digits_to_nat_push(
                                    body,
                                    potential_range@[j as int],
                                );
                            } else {
                                crate::text::lemma_digits_to_nat_push(
                                    lp,
                                    potential_range@[j as int],
                                );
                            }
                        }
                        if is_digit {
                            let stepped: u64 = cur_val * 10 + (u - 48) as u64;
                            if stepped > 0xffff_ffffu64 {
                                st = FieldState::Bad;
                                proof {
                                    assert(newlp[0] == lp[0]);
                                    if newlp[0] == '+' {
                                        let newbody = newlp.subrange(1, newlp.len() as int);
                                        assert(all_digits(newbody));
                                        assert(digits_to_nat(newbody) > u32::MAX);
                                    } else {
                                        assert(all_digits(newlp));
                                        assert(digits_to_nat(newlp) > u32::MAX);
                                    }
                                }
                            } else {
                                cur_val = stepped;
                            }
                        } else {
                            st = FieldState::Bad;
                            proof {
                                assert(newlp[0] == lp[0]);
                                if newlp[0] == '+' {
                                    let newbody = newlp.subrange(1, newlp.len() as int);
                                    assert(newbody.last() == potential_range@[j as int]);
                                    assert(!all_digits(newbody));
                                } else {
                                    assert(newlp.last() == potential_range@[j as int]);
                                    assert(!all_digits(newlp));
                                }
                            }
                        }
                    },
                    FieldState::Bad => {
                        proof {
                            lemma_field_bad_step(lp, potential_range@[j as int]);
                        }
                    },
                }
            }
            j += 1;
        }
        proof {
            assert(potential_range@.subrange(0, n as int) =~= potential_range@);
            lemma_split_colon_nonempty(potential_range@);
        }
        let ghost ps = split_colon(potential_range@);
        let nfields = vals.len();
        let last_good = matches!(st, FieldState::Value);
        if !completed_ok {
            proof {
                assert(field_u32(ps[bad_k]) is None);
                assert(ps.len() >= 2);
                if ps.len() == 2 {
                    assert(bad_k == 0);
                }
            }
            return Err(Error::InvalidRange);
        }
        if !last_good {
            proof {
                assert(ps[ps.len() - 1] == ps.last());
                match st {
                    FieldState::Empty => {
                        assert(field_u32(ps.last()) is None);
                    },
                    FieldState::SignOnly => {
                        assert(ps.last() =~= seq!['+']);
                        assert(ps.last()[0] == '+');
                        assert(ps.last().subrange(1, ps.last().len() as int) =~= Seq::<
                            char,
                        >::empty());
                        assert(field_u32(ps.last()) is None);
                    },
                    _ => {
                        assert(field_u32(ps.last()) is None);
                    },
                }
            }
            return Err(Error::InvalidRange);
        }
        if nfields == 0 {
            let start = cur_val as u32;
            proof {
                assert(ps.len() == 1);
                assert(ps[0] == ps.last());
            }
            Ok(Parser { range: start..u32::MAX, index: start, is_range: false })
        } else if nfields == 1 {
            let start = vals[0];
            let end = cur_val as u32;
            proof {
                assert(ps.len() == 2);
                assert(ps[1] == ps.last());
            }
            if start >= end {
                return Err(Error::InvalidRange);
            }
            Ok(Parser { range: start..end, index: start, is_range: true })
        } else {
            proof {
                assert(ps.len() >= 3);
            }
            Err(Error::InvalidRange)
        }
    }
}

proof fn lemma_field_bad_step(lp: Seq<char>, c: char)
    requires
        lp.len() > 0,
        !(lp =~= seq!['+']),
        field_u32(lp) is None,
    ensures
        lp.push(c).len() > 0,
        !(lp.push(c) =~= seq!['+']),
        field_u32(lp.push(c)) is None,
{
    let newlp = lp.push(c);
    assert(newlp[0] == lp[0]);
    if lp[0] == '+' {
        let body = lp.subrange(1, lp.len() as int);
        let newbody = newlp.subrange(1, newlp.len() as int);
        assert(newbody =~= body.push(c));
        assert(body.len() > 0);
        if all_digits(body) && digits_to_nat(body) > u32::MAX {
            crate::text::lemma_digits_to_nat_push(body, c);
            if crate::text::is_digit_char(c) {
                assert(all_digits(newbody));
                assert(digits_to_nat(newbody) >= digits_to_nat(body));
            } else {
                assert(newbody.last() == c);
                assert(!all_digits(newbody));
            }
        } else {
            let bad = choose|k: int| 0 <= k < body.len() && !crate::text::is_digit_char(#[trigger] body[k]);
            if all_digits(body) {
                assert(digits_value(body) == Some(digits_to_nat(body)));
                assert(digits_to_nat(body) > u32::MAX);
            } else {
                assert(newbody[bad] == body[bad]);
                assert(!all_digits(newbody));
            }
        }
    } else {
        if all_digits(lp) && digits_to_nat(lp) > u32::MAX {
            crate::text::lemma_digits_to_nat_push(lp, c);
            if crate::text::is_digit_char(c) {
                assert(all_digits(newlp));
                assert(digits_to_nat(newlp) >= digits_to_nat(lp));
            } else {
                assert(newlp.last() == c);
                assert(!all_digits(newlp));
            }
        } else {
            let bad = choose|k: int| 0 <= k < lp.len() && !crate::text::is_digit_char(#[trigger] lp[k]);
            if all_digits(lp) {
                assert(digits_value(lp) == Some(digits_to_nat(lp)));
            } else {
                assert(newlp[bad] == lp[bad]);
                assert(!all_digits(newlp));
            }
        }
    }
}

} // verus!
