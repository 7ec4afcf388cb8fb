//! Clock-like durations: parsing loose `H:M:S` text, canonical `HH:MM:SS`
//! rendering, and signed second arithmetic.
use vstd::prelude::*;

use crate::text::all_digits;
use crate::text::contains_char;
use crate::text::digit_val;
use crate::text::digits_to_nat;
use crate::text::digits_value;
use crate::text::pad2;
use crate::text::contains_char_str;
use crate::text::is_digit_char;
use crate::text::pad2_u64;

verus! {

/// Upper bound on the seconds a `Time` may carry; far above anything the
/// parser can produce, but small enough that sums of two values fit an `i64`.
pub const MAX_TIME_SECS: i64 = 0x7fff_ffff_ffff;

/// The characters the duration parser keeps: digits and `:`.
pub open spec fn is_time_char(c: char) -> bool {
    is_digit_char(c) || c == ':'
}

/// `s` with every character that is neither a digit nor `:` removed.
pub open spec fn clean_time(s: Seq<char>) -> Seq<char>
    decreases s.len(),
{
    if s.len() == 0 {
        Seq::<char>::empty()
    } else if is_time_char(s.last()) {
        clean_time(s.drop_last()).push(s.last())
    } else {
        clean_time(s.drop_last())
    }
}

/// `s` split on `:`; always at least one (possibly empty) field.
pub open spec fn split_colon(s: Seq<char>) -> Seq<Seq<char>>
    decreases s.len(),
{
    if s.len() == 0 {
        seq![Seq::<char>::empty()]
    } else if s.last() == ':' {
        split_colon(s.drop_last()).push(Seq::<char>::empty())
    } else {
        let r = split_colon(s.drop_last());
        r.update(r.len() - 1, r.last().push(s.last()))
    }
}

proof fn lemma_clean_time_chars(s: Seq<char>)
    ensures
        forall|k: int|
            0 <= k < clean_time(s).len() ==> is_time_char(#[trigger] clean_time(s)[k]),
    decreases s.len(),
{
    if s.len() > 0 {
        lemma_clean_time_chars(s.drop_last());
        if is_time_char(s.last()) {
            assert forall|k: int| 0 <= k < clean_time(s).len() implies is_time_char(
                #[trigger] clean_time(s)[k],
            ) by {
                if k < clean_time(s.drop_last()).len() {
                    assert(clean_time(s)[k] == clean_time(s.drop_last())[k]);
                } else {
                    assert(clean_time(s)[k] == s.last());
                }
            }
        }
    }
}

pub proof fn lemma_split_colon_nonempty(s: Seq<char>)
    ensures
        split_colon(s).len() >= 1,
    decreases s.len(),
{
    if s.len() > 0 {
        lemma_split_colon_nonempty(s.drop_last());
    }
}

/// A numeric field's value: its digit value when non-empty and within
/// `u32` range, and zero otherwise (the deliberately permissive fallback).
pub open spec fn part_num(p: Seq<char>) -> nat {
    match digits_value(p) {
        Some(v) => if v <= u32::MAX { v } else { 0 },
        None => 0,
    }
}

/// The colon-separated numeric fields of the cleaned input.
pub open spec fn time_parts(s: Seq<char>) -> Seq<Seq<char>> {
    split_colon(clean_time(s))
}

/// Seconds denoted by the fields: `S`, `M:S`, or `H:M:S`; any other number
/// of fields is invalid input and falls back to one minute.
pub open spec fn secs_of_parts(ps: Seq<Seq<char>>) -> nat {
    if ps.len() == 1 {
        part_num(ps[0])
    } else if ps.len() == 2 {
        part_num(ps[0]) * 60 + part_num(ps[1])
    } else if ps.len() == 3 {
        part_num(ps[0]) * 3600 + part_num(ps[1]) * 60 + part_num(ps[2])
    } else {
        60
    }
}

/// What `Time::parse` yields, as a count of seconds.
pub open spec fn parse_time_secs(s: Seq<char>) -> nat {
    secs_of_parts(time_parts(s))
}

/// Canonical `HH:MM:SS` rendering; hours are unbounded, never wrapped.
pub open spec fn render_time(secs: nat) -> Seq<char> {
    pad2(secs / 3600) + seq![':'] + pad2((secs % 3600) / 60) + seq![':'] + pad2(secs % 60)
}

/// A non-negative duration together with its canonical `HH:MM:SS` text.
#[derive(Clone, Debug)]
pub struct Time {
    pub as_string: String,
    pub as_secs: i64,
}

impl Time {
    /// The backing seconds are in range and the text is their rendering.
    pub open spec fn wf(self) -> bool {
        &&& 0 <= self.as_secs <= MAX_TIME_SECS
        &&& self.as_string@ == render_time(self.as_secs as nat)
    }
}

fn is_time_char_exec(c: char) -> (r: bool)
    ensures
        r == is_time_char(c),
{
    let u = c as u32;
    (48 <= u && u <= 57) || u == 58
}

/// Renders a second count as zero-padded `HH:MM:SS`.
pub fn render_time_string(secs: u64) -> (r: String)
    ensures
        r@ == render_time(secs as nat),
{
    let mut s = pad2_u64(secs / 3600);
    s.append(":");
    let mins = pad2_u64((secs % 3600) / 60);
    s.append(mins.as_str());
    s.append(":");
    let rest = pad2_u64(secs % 60);
    s.append(rest.as_str());
    proof {
        reveal_strlit(":");
        assert(":"@ =~= seq![':']);
        assert(s@ =~= render_time(secs as nat));
    }
    s
}

proof fn lemma_parse_secs_bound(s: Seq<char>)
    ensures
        parse_time_secs(s) <= 0xffff_ffff * 3661,
{
    let ps = time_parts(s);
    if ps.len() == 1 {
        assert(part_num(ps[0]) <= 0xffff_ffff);
    } else if ps.len() == 2 {
        assert(part_num(ps[0]) <= 0xffff_ffff);
        assert(part_num(ps[1]) <= 0xffff_ffff);
    } else if ps.len() == 3 {
        assert(part_num(ps[0]) <= 0xffff_ffff);
        assert(part_num(ps[1]) <= 0xffff_ffff);
        assert(part_num(ps[2]) <= 0xffff_ffff);
    }
}

impl Time {
    /// Builds a `Time` from loosely formatted text: strips every character
    /// that is not a digit or `:`, reads the remaining fields as seconds,
    /// minutes:seconds, or hours:minutes:seconds (a field that is empty or
    /// too large counts as zero), and re-renders canonically.
    pub fn parse(input: &str) -> (t: Time)
        ensures
            t.wf(),
            t.as_secs as nat == parse_time_secs(input@),
    {
        let n = input.unicode_len();
        let mut cl: Vec<char> = Vec::new();
        let mut i: usize = 0;
        while i < n
            invariant
                i <= n,
                n == input@.len(),
                cl@ == clean_time(input@.subrange(0, i as int)),
            decreases n - i,
        {
            let c = input.get_char(i);
            proof {
                assert(input@.subrange(0, i as int + 1).drop_last() =~= input@.subrange(
                    0,
                    i as int,
                ));
                assert(input@.subrange(0, i as int + 1).last() == c);
            }
            if is_time_char_exec(c) {
                cl.push(c);
            }
            i += 1;
        }
        proof {
            assert(input@.subrange(0, n as int) =~= input@);
            lemma_clean_time_chars(input@);
        }
        let secs = secs_from_fields(&cl);
        proof {
            lemma_parse_secs_bound(input@);
        }
        Time { as_string: render_time_string(secs), as_secs: secs as i64 }
    }

    /// A `Time` holding exactly `secs` seconds.
    pub fn from_secs(secs: u64) -> (t: Time)
        requires
            secs <= MAX_TIME_SECS as u64,
        ensures
            t.wf(),
            t.as_secs == secs,
    {
        Time { as_string: render_time_string(secs), as_secs: secs as i64 }
    }

    /// The canonical `HH:MM:SS` text.
    pub fn format(&self) -> (r: String)
        requires
            self.wf(),
        ensures
            r@ == render_time(self.as_secs as nat),
            r@ == self.as_string@,
    {
        self.as_string.clone()
    }

    /// Sum of two durations.
    pub fn add(&self, other: &Time) -> (t: Time)
        requires
            self.wf(),
            other.wf(),
            self.as_secs + other.as_secs <= MAX_TIME_SECS,
        ensures
            t.wf(),
            t.as_secs == self.as_secs + other.as_secs,
    {
        Time::from_secs((self.as_secs + other.as_secs) as u64)
    }

    /// Difference of two durations; a negative result is not defined here,
    /// so callers must rule it out first.
    pub fn subtract(&self, other: &Time) -> (t: Time)
        requires
            self.wf(),
            other.wf(),
            other.as_secs <= self.as_secs,
        ensures
            t.wf(),
            t.as_secs == self.as_secs - other.as_secs,
    {
        Time::from_secs((self.as_secs - other.as_secs) as u64)
    }

    /// Signed target seconds for a relative position string: the parsed
    /// magnitude is subtracted when the text carries a `-`, added otherwise.
    pub fn compute_offset(&self, other: &str) -> (r: i64)
        requires
            self.wf(),
        ensures
            contains_char(other@, '-') ==> r == self.as_secs - parse_time_secs(other@),
            !contains_char(other@, '-') ==> r == self.as_secs + parse_time_secs(other@),
    {
        let t = Time::parse(other);
        if contains_char_str(other, '-') {
            self.as_secs - t.as_secs
        } else {
            self.as_secs + t.as_secs
        }
    }
}

proof fn lemma_dec_digits_are_digits(n: nat)
    ensures
        all_digits(crate::text::dec_digits(n)),
        crate::text::dec_digits(n).len() >= 1,
    decreases n,
{
    if n >= 10 {
        lemma_dec_digits_are_digits(n / 10);
        let d = crate::text::dec_digits(n / 10);
        let whole = d.push(crate::text::digit_char(n % 10));
        assert forall|k: int| 0 <= k < whole.len() implies is_digit_char(#[trigger] whole[k]) by {
            if k < d.len() {
                assert(whole[k] == d[k]);
            }
        }
    }
}

proof fn lemma_digit_char_val(n: nat)
    requires
        n < 10,
    ensures
        digit_val(crate::text::digit_char(n)) == n,
{
}

proof fn lemma_dec_digits_value(n: nat)
    ensures
        digits_to_nat(crate::text::dec_digits(n)) == n,
    decreases n,
{
    if n < 10 {
        lemma_digit_char_val(n);
        crate::text::lemma_digits_to_nat_push(Seq::<char>::empty(), crate::text::digit_char(n));
        assert(crate::text::dec_digits(n) =~= Seq::<char>::empty().push(
            crate::text::digit_char(n),
        ));
    } else {
        lemma_dec_digits_value(n / 10);
        lemma_digit_char_val(n % 10);
        crate::text::lemma_digits_to_nat_push(
            crate::text::dec_digits(n / 10),
            crate::text::digit_char(n % 10),
        );
        vstd::arithmetic::div_mod::lemma_fundamental_div_mod(n as int, 10);
    }
}

proof fn lemma_pad2_part(n: nat)
    requires
        n <= u32::MAX,
    ensures
        all_digits(pad2(n)),
        pad2(n).len() >= 1,
        part_num(pad2(n)) == n,
{
    lemma_dec_digits_are_digits(n);
    lemma_dec_digits_value(n);
    if n < 10 {
        let p = pad2(n);
        lemma_digit_char_val(n);
        crate::text::lemma_digits_to_nat_push(Seq::<char>::empty(), '0');
        assert(seq!['0'] =~= Seq::<char>::empty().push('0'));
        assert(digits_to_nat(seq!['0']) == 0);
        crate::text::lemma_digits_to_nat_push(seq!['0'], crate::text::digit_char(n));
        assert(p =~= seq!['0'].push(crate::text::digit_char(n)));
        assert(digits_to_nat(p) == n);
        assert forall|k: int| 0 <= k < p.len() implies is_digit_char(#[trigger] p[k]) by {}
    }
}

proof fn lemma_clean_time_id(s: Seq<char>)
    requires
        forall|k: int| 0 <= k < s.len() ==> is_time_char(#[trigger] s[k]),
    ensures
        clean_time(s) == s,
    decreases s.len(),
{
    if s.len() > 0 {
        assert(forall|k: int|
            0 <= k < s.drop_last().len() ==> is_time_char(#[trigger] s.drop_last()[k]));
        lemma_clean_time_id(s.drop_last());
        assert(clean_time(s) =~= s);
    } else {
        assert(clean_time(s) =~= s);
    }
}

proof fn lemma_split_append_nocolon(a: Seq<char>, p: Seq<char>)
    requires
        forall|k: int| 0 <= k < p.len() ==> #[trigger] p[k] != ':',
    ensures
        split_colon(a + p) =~~= split_colon(a).update(
            split_colon(a).len() - 1,
            split_colon(a).last() + p,
        ),
    decreases p.len(),
{
    lemma_split_colon_nonempty(a);
    let r = split_colon(a);
    if p.len() == 0 {
        assert(a + p =~= a);
        assert(r.last() + p =~= r.last());
        assert(r.update(r.len() - 1, r.last()) =~~= r);
    } else {
        let q = p.drop_last();
        assert(forall|k: int| 0 <= k < q.len() ==> #[trigger] q[k] != ':');
        lemma_split_append_nocolon(a, q);
        let s = a + p;
        assert(s.last() == p.last());
        assert(s.last() != ':');
        assert(s.drop_last() =~= a + q);
        let rq = split_colon(a + q);
        assert(split_colon(s) == rq.update(rq.len() - 1, rq.last().push(s.last())));
        assert(rq.last() == r.last() + q);
        assert((r.last() + q).push(p.last()) =~= r.last() + p);
        assert(split_colon(s) =~~= r.update(r.len() - 1, r.last() + p));
    }
}

proof fn lemma_split_push_colon(a: Seq<char>)
    ensures
        split_colon(a + seq![':']) =~~= split_colon(a).push(Seq::<char>::empty()),
{
    let s = a + seq![':'];
    assert(s.last() == ':');
    assert(s.drop_last() =~= a);
}

/// Parsing the canonical rendering of `t` seconds gives back `t`, as long
/// as the hour field stays within the unsigned-field range the parser reads.
proof fn lemma_parse_of_render(t: nat)
    requires
        t / 3600 <= u32::MAX,
    ensures
        parse_time_secs(render_time(t)) == t,
{
    let h = t / 3600;
    let rem = t % 3600;
    let mn = rem / 60;
    let sc = t % 60;
    vstd::arithmetic::div_mod::lemma_fundamental_div_mod(t as int, 3600);
    vstd::arithmetic::div_mod::lemma_fundamental_div_mod(rem as int, 60);
    vstd::arithmetic::div_mod::lemma_mod_bound(t as int, 3600);
    vstd::arithmetic::div_mod::lemma_mod_bound(rem as int, 60);
    vstd::arithmetic::div_mod::lemma_mod_bound(t as int, 60);
    assert(60 * 60 == 3600int);
    vstd::arithmetic::div_mod::lemma_mod_mod(t as int, 60, 60);
    assert(rem % 60 == sc);
    assert(mn < 60);
    lemma_pad2_part(h);
    lemma_pad2_part(mn);
    lemma_pad2_part(sc);
    let rt = render_time(t);
    assert forall|k: int| 0 <= k < rt.len() implies is_time_char(#[trigger] rt[k]) by {
        let ph = pad2(h);
        let pm = pad2(mn);
        let psc = pad2(sc);
        if k < ph.len() {
            assert(rt[k] == ph[k]);
        } else if k == ph.len() {
            assert(rt[k] == ':');
        } else if k < ph.len() + 1 + pm.len() {
            assert(rt[k] == pm[k - ph.len() - 1]);
        } else if k == ph.len() + 1 + pm.len() {
            assert(rt[k] == ':');
        } else {
            assert(rt[k] == psc[k - ph.len() - pm.len() - 2]);
        }
    }
    lemma_clean_time_id(rt);
    let ph = pad2(h);
    let pm = pad2(mn);
    let psc = pad2(sc);
    assert(Seq::<char>::empty() + ph =~= ph);
    lemma_split_append_nocolon(Seq::<char>::empty(), ph);
    assert(split_colon(ph) =~~= seq![ph]);
    lemma_split_push_colon(ph);
    assert(split_colon(ph + seq![':']) =~~= seq![ph, Seq::<char>::empty()]);
    lemma_split_append_nocolon(ph + seq![':'], pm);
    assert(Seq::<char>::empty() + pm =~= pm);
    assert(split_colon(ph + seq![':'] + pm) =~~= seq![ph, pm]);
    lemma_split_push_colon(ph + seq![':'] + pm);
    assert(split_colon(ph + seq![':'] + pm + seq![':']) =~~= seq![ph, pm, Seq::<char>::empty()]);
    lemma_split_append_nocolon(ph + seq![':'] + pm + seq![':'], psc);
    assert(Seq::<char>::empty() + psc =~= psc);
    assert(split_colon(rt) =~~= seq![ph, pm, psc]);
    assert(secs_of_parts(seq![ph, pm, psc]) == h * 3600 + mn * 60 + sc);
    assert(h * 3600 + mn * 60 + sc == t);
}

/// The parse/format round trip: re-parsing and re-rendering a canonical
/// rendering changes nothing, for any input whose hour count the numeric
/// fields can carry.
pub proof fn lemma_format_parse_round_trip(s: Seq<char>)
    requires
        parse_time_secs(s) / 3600 <= u32::MAX,
    ensures
        render_time(parse_time_secs(render_time(parse_time_secs(s)))) == render_time(
            parse_time_secs(s),
        ),
{
    lemma_parse_of_render(parse_time_secs(s));
}

/// An elapsed/total pair for the current track.
#[derive(Clone, Debug)]
pub struct Track {
    pub elapsed: Time,
    pub total: Time,
}

impl Track {
    /// Builds the pair from the daemon's optional `(elapsed, total)`
    /// seconds; both read as zero when the daemon reports nothing.
    pub fn from_option(time: Option<(u64, u64)>) -> (r: Track)
        requires
            match time {
                Some((e, t)) => e <= MAX_TIME_SECS as u64 && t <= MAX_TIME_SECS as u64,
                None => true,
            },
        ensures
            r.elapsed.wf(),
            r.total.wf(),
            match time {
                Some((e, t)) => r.elapsed.as_secs == e && r.total.as_secs == t,
                None => r.elapsed.as_secs == 0 && r.total.as_secs == 0,
            },
    {
        match time {
            Some((elapsed, total)) => Track {
                elapsed: Time::from_secs(elapsed),
                total: Time::from_secs(total),
            },
            None => Track { elapsed: Time::from_secs(0), total: Time::from_secs(0) },
        }
    }
}

/// Reads the colon-separated fields of an already cleaned character list
/// and returns the seconds they denote.
fn secs_from_fields(cl: &Vec<char>) -> (secs: u64)
    requires
        forall|k: int| 0 <= k < cl@.len() ==> is_time_char(#[trigger] cl@[k]),
    ensures
        secs as nat == secs_of_parts(split_colon(cl@)),
        secs <= 0xffff_ffff * 3661,
{
    let m = cl.len();
    let mut vals: Vec<u32> = Vec::new();
    let mut cur_val: u64 = 0;
    let mut cur_big = false;
    let mut cur_some = false;
    let mut j: usize = 0;
    while j < m
        invariant
            j <= m,
            m == cl@.len(),
            forall|k: int| 0 <= k < cl@.len() ==> is_time_char(#[trigger] cl@[k]),
            split_colon(cl@.subrange(0, j as int)).len() == vals@.len() + 1,
            forall|k: int|
                0 <= k < vals@.len() ==> vals@[k] as nat == part_num(
                    #[trigger] split_colon(cl@.subrange(0, j as int))[k],
                ),
            all_digits(split_colon(cl@.subrange(0, j as int)).last()),
            cur_some == (split_colon(cl@.subrange(0, j as int)).last().len() > 0),
            !cur_big ==> cur_val as nat == digits_to_nat(
                split_colon(cl@.subrange(0, j as int)).last(),
            ),
            !cur_big ==> cur_val <= u32::MAX,
            cur_big ==> digits_to_nat(split_colon(cl@.subrange(0, j as int)).last()) > u32::MAX,
        decreases m - j,
    {
        let ghost pre = cl@.subrange(0, j as int);
        let ghost post = cl@.subrange(0, j as int + 1);
        proof {
            lemma_split_colon_nonempty(pre);
            assert(post.drop_last() =~= pre);
            assert(post.last() == cl@[j as int]);
        }
        let c = cl[j];
        if c == ':' {
            let v: u32 = if cur_some && !cur_big {
                cur_val as u32
            } else {
                0u32
            };
            assert(v as nat == part_num(split_colon(pre).last()));
            vals.push(v);
            cur_val = 0;
            cur_big = false;
            cur_some = false;
            proof {
                assert(split_colon(post) =~= split_colon(pre).push(Seq::<char>::empty()));
                assert forall|k: int| 0 <= k < vals@.len() implies vals@[k] as nat == part_num(
                    #[trigger] split_colon(post)[k],
                ) by {
                    if k < vals@.len() - 1 {
                        assert(split_colon(post)[k] == split_colon(pre)[k]);
                    } else {
                        assert(split_colon(post)[k] == split_colon(pre).last());
                    }
                }
            }
        } else {
            let ghost lp = split_colon(pre).last();
            proof {
                let r = split_colon(pre);
                assert(split_colon(post) == r.update(r.len() - 1, r.last().push(cl@[j as int])));
                assert(split_colon(post).last() == lp.push(cl@[j as int]));
                crate::text::lemma_digits_to_nat_push(lp, cl@[j as int]);
            }
            let d: u64 = (c as u32 - 48) as u64;
            if cur_big {
                proof {
                    assert(digits_to_nat(lp.push(cl@[j as int])) >= digits_to_nat(lp));
                }
            } else {
                let stepped: u64 = cur_val * 10 + d;
                if stepped > 0xffff_ffffu64 {
                    cur_big = true;
                } else {
                    cur_val = stepped;
                }
            }
            cur_some = true;
        }
        j += 1;
    }
    proof {
        assert(cl@.subrange(0, m as int) =~= cl@);
        lemma_split_colon_nonempty(cl@);
    }
    let v: u32 = if cur_some && !cur_big {
        cur_val as u32
    } else {
        0u32
    };
    assert(v as nat == part_num(split_colon(cl@).last()));
    vals.push(v);
    let ghost ps = split_colon(cl@);
    proof {
        assert forall|k: int| 0 <= k < vals@.len() implies vals@[k] as nat == part_num(
            #[trigger] ps[k],
        ) by {
            if k < vals@.len() - 1 {
            } else {
                assert(ps[k] == ps.last());
            }
        }
    }
    if vals.len() == 1 {
        vals[0] as u64
    } else if vals.len() == 2 {
        vals[0] as u64 * 60 + vals[1] as u64
    } else if vals.len() == 3 {
        vals[0] as u64 * 3600 + vals[1] as u64 * 60 + vals[2] as u64
    } else {
        60
    }
}

} // verus!
