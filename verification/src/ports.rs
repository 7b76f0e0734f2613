//! Port specification handling: parsing a comma-separated list of ports and
//! inclusive ranges into an ascending, duplicate-free sequence, and
//! compressing such a sequence back into its textual range form.

use vstd::prelude::*;
use vstd::string::{StrSliceExecFns, StringExecFns};

use crate::text::{
    all_digits, dec_value, first_idx, is_digit, is_digit_exec, is_space, is_space_exec,
    lemma_dec_value_nonneg, lemma_dec_value_prefix, lemma_dec_value_spec_dec, lemma_first_idx_at,
    lemma_spec_dec_digits, lemma_split_prefix, lemma_split_single, lemma_trim_id, spec_dec,
    spec_split, spec_trim, trim_back, trim_front, u64_to_dec,
};

verus! {

/// Meaning of one comma-separated token: the inclusive port interval it
/// denotes, or `None` if the token is ill-formed.
pub open spec fn token_bounds(t: Seq<char>) -> Option<(u16, u16)> {
    let u = spec_trim(t);
    match first_idx(u, '-') {
        None => if all_digits(u) && dec_value(u) <= 65535 {
            Some((dec_value(u) as u16, dec_value(u) as u16))
        } else {
            None
        },
        Some(i) => {
            let tail = u.skip(i + 1);
            let a = spec_trim(u.take(i));
            let b = spec_trim(tail);
            if (forall|j: int| 0 <= j < tail.len() ==> #[trigger] tail[j] != '-')
                && all_digits(a) && all_digits(b) && dec_value(a) <= 65535 && dec_value(b) <= 65535
                && dec_value(a) <= dec_value(b) {
                Some((dec_value(a) as u16, dec_value(b) as u16))
            } else {
                None
            }
        },
    }
}

/// How many entries a token expands to.
pub open spec fn tok_size(t: Seq<char>) -> int {
    match token_bounds(t) {
        Some((lo, hi)) => hi - lo + 1,
        None => 0,
    }
}

pub open spec fn total_size(toks: Seq<Seq<char>>) -> int
    decreases toks.len(),
{
    if toks.len() == 0 {
        0
    } else {
        tok_size(toks[0]) + total_size(toks.drop_first())
    }
}

pub open spec fn in_token(t: Seq<char>, p: u16) -> bool {
    match token_bounds(t) {
        Some((lo, hi)) => lo <= p <= hi,
        None => false,
    }
}

pub open spec fn in_tokens(toks: Seq<Seq<char>>, p: u16) -> bool {
    exists|i: int| 0 <= i < toks.len() && in_token(#[trigger] toks[i], p)
}

pub open spec fn all_tokens_valid(toks: Seq<Seq<char>>) -> bool {
    forall|i: int| 0 <= i < toks.len() ==> token_bounds(#[trigger] toks[i]) is Some
}

/// The comma-separated tokens of a port specification.
pub open spec fn spec_tokens(s: Seq<char>) -> Seq<Seq<char>> {
    spec_split(s, ',')
}

/// A specification parses successfully: every token well-formed and the
/// expansion within the entry cap.
pub open spec fn spec_ports_ok(s: Seq<char>) -> bool {
    all_tokens_valid(spec_tokens(s)) && total_size(spec_tokens(s)) <= 65535
}

/// Membership of a port in the expansion of a specification.
pub open spec fn in_spec_ports(s: Seq<char>, p: u16) -> bool {
    in_tokens(spec_tokens(s), p)
}

proof fn lemma_total_size_app(x: Seq<Seq<char>>, y: Seq<Seq<char>>)
    ensures
        total_size(x + y) == total_size(x) + total_size(y),
    decreases x.len(),
{
    if x.len() == 0 {
        assert(x + y =~= y);
    } else {
        lemma_total_size_app(x.drop_first(), y);
        assert((x + y).drop_first() =~= x.drop_first() + y);
        assert((x + y)[0] == x[0]);
    }
}

proof fn lemma_tok_size(t: Seq<char>)
    ensures
        tok_size(t) >= 0,
        token_bounds(t) is Some ==> tok_size(t) >= 1,
{
    let u = spec_trim(t);
    match first_idx(u, '-') {
        None => {
            if all_digits(u) && dec_value(u) <= 65535 {
                lemma_dec_value_nonneg(u);
            }
        },
        Some(i) => {
            let a = spec_trim(u.take(i));
            let b = spec_trim(u.skip(i + 1));
            if all_digits(a) && all_digits(b) {
                lemma_dec_value_nonneg(a);
                lemma_dec_value_nonneg(b);
            }
        },
    }
}

proof fn lemma_total_size_nonneg(x: Seq<Seq<char>>)
    ensures
        total_size(x) >= 0,
    decreases x.len(),
{
    if x.len() > 0 {
        lemma_tok_size(x[0]);
        lemma_total_size_nonneg(x.drop_first());
    }
}

proof fn lemma_total_size_snoc(x: Seq<Seq<char>>, t: Seq<char>)
    ensures
        total_size(x.push(t)) == total_size(x) + tok_size(t),
{
    assert(x.push(t) =~= x + seq![t]);
    lemma_total_size_app(x, seq![t]);
    assert(seq![t].drop_first() =~= Seq::<Seq<char>>::empty());
    assert(total_size(seq![t]) == tok_size(t) + total_size(Seq::<Seq<char>>::empty()));
}

proof fn lemma_in_tokens_snoc(x: Seq<Seq<char>>, t: Seq<char>, p: u16)
    ensures
        in_tokens(x.push(t), p) == (in_tokens(x, p) || in_token(t, p)),
{
    let y = x.push(t);
    if in_tokens(x, p) {
        let i = choose|i: int| 0 <= i < x.len() && in_token(#[trigger] x[i], p);
        assert(y[i] == x[i]);
        assert(in_tokens(y, p));
    }
    if in_token(t, p) {
        assert(y[x.len() as int] == t);
        assert(in_tokens(y, p));
    }
    if in_tokens(y, p) {
        let i = choose|i: int| 0 <= i < y.len() && in_token(#[trigger] y[i], p);
        if i < x.len() {
            assert(x[i] == y[i]);
            assert(in_tokens(x, p));
        } else {
            assert(y[i] == t);
        }
    }
}

/// Shrinks `[from, to)` to the whitespace-trimmed sub-interval.
fn trim_bounds(s: &str, from: usize, to: usize) -> (r: (usize, usize))
    requires
        from <= to <= s@.len(),
    ensures
        from <= r.0 <= r.1 <= to,
        spec_trim(s@.subrange(from as int, to as int)) == s@.subrange(r.0 as int, r.1 as int),
{
    let mut a: usize = from;
    while a < to && is_space_exec(s.get_char(a))
        invariant
            from <= a <= to <= s@.len(),
            trim_front(s@.subrange(from as int, to as int)) == trim_front(
                s@.subrange(a as int, to as int),
            ),
        decreases to - a,
    {
        proof {
            assert(s@.subrange(a as int, to as int).drop_first() =~= s@.subrange(
                a as int + 1,
                to as int,
            ));
        }
        a += 1;
    }
    proof {
        if a < to {
            assert(!is_space(s@.subrange(a as int, to as int)[0]));
        }
        assert(trim_front(s@.subrange(a as int, to as int)) == s@.subrange(a as int, to as int));
    }
    let mut b: usize = to;
    while b > a && is_space_exec(s.get_char(b - 1))
        invariant
            from <= a <= b <= to <= s@.len(),
            trim_front(s@.subrange(from as int, to as int)) == s@.subrange(a as int, to as int),
            trim_back(s@.subrange(a as int, to as int)) == trim_back(
                s@.subrange(a as int, b as int),
            ),
        decreases b,
    {
        proof {
            assert(s@.subrange(a as int, b as int).last() == s@[b - 1]);
            assert(s@.subrange(a as int, b as int).drop_last() =~= s@.subrange(
                a as int,
                b as int - 1,
            ));
        }
        b -= 1;
    }
    proof {
        if b > a {
            assert(s@.subrange(a as int, b as int).last() == s@[b - 1]);
            assert(!is_space(s@.subrange(a as int, b as int).last()));
        }
        assert(trim_back(s@.subrange(a as int, b as int)) == s@.subrange(a as int, b as int));
    }
    (a, b)
}

/// Parses the digit string in `[from, to)` as a port number.
fn parse_number(s: &str, from: usize, to: usize) -> (r: Option<u16>)
    requires
        from <= to <= s@.len(),
    ensures
        ({
            let u = s@.subrange(from as int, to as int);
            match r {
                Some(v) => all_digits(u) && dec_value(u) == v && v <= 65535,
                None => !(all_digits(u) && dec_value(u) <= 65535),
            }
        }),
{
    let ghost u = s@.subrange(from as int, to as int);
    if from == to {
        proof {
            assert(!all_digits(u));
        }
        return None;
    }
    let mut k: usize = from;
    while k < to
        invariant
            from <= k <= to <= s@.len(),
            u == s@.subrange(from as int, to as int),
            forall|i: int| 0 <= i < k - from ==> is_digit(#[trigger] u[i]),
        decreases to - k,
    {
        if !is_digit_exec(s.get_char(k)) {
            proof {
                assert(u[k - from] == s@[k as int]);
                assert(!all_digits(u));
            }
            return None;
        }
        proof {
            assert(u[k - from] == s@[k as int]);
        }
        k += 1;
    }
    proof {
        assert(all_digits(u));
    }
    let mut acc: u32 = 0;
    let mut k2: usize = from;
    while k2 < to
        invariant
            from <= k2 <= to <= s@.len(),
            u == s@.subrange(from as int, to as int),
            all_digits(u),
            acc <= 65535,
            acc == dec_value(u.take(k2 - from)),
        decreases to - k2,
    {
        let c = s.get_char(k2);
        proof {
            assert(u[k2 - from] == s@[k2 as int]);
            assert(is_digit(u[k2 - from]));
        }
        let d: u32 = (c as u32) - 48;
        let next: u32 = acc * 10 + d;
        proof {
            assert(u.take(k2 - from + 1).drop_last() =~= u.take(k2 - from));
            assert(u.take(k2 - from + 1).last() == u[k2 - from]);
        }
        if next > 65535 {
            proof {
                lemma_dec_value_prefix(u, k2 - from + 1);
            }
            return None;
        }
        acc = next;
        k2 += 1;
    }
    proof {
        assert(u.take(to - from) =~= u);
    }
    Some(acc as u16)
}

spec fn count_true(s: Seq<bool>) -> int
    decreases s.len(),
{
    if s.len() == 0 {
        0
    } else {
        count_true(s.drop_last()) + if s.last() {
            1int
        } else {
            0int
        }
    }
}

proof fn lemma_count_true_update(s: Seq<bool>, i: int)
    requires
        0 <= i < s.len(),
        !s[i],
    ensures
        count_true(s.update(i, true)) == count_true(s) + 1,
    decreases s.len(),
{
    let t = s.update(i, true);
    if i == s.len() - 1 {
        assert(t.drop_last() =~= s.drop_last());
        assert(t.last());
        assert(!s.last());
    } else {
        assert(t.drop_last() =~= s.drop_last().update(i, true));
        assert(t.last() == s.last());
        lemma_count_true_update(s.drop_last(), i);
    }
}

proof fn lemma_count_true_step(s: Seq<bool>, i: int)
    requires
        0 <= i < s.len(),
    ensures
        count_true(s.take(i + 1)) == count_true(s.take(i)) + if s[i] {
            1int
        } else {
            0int
        },
{
    assert(s.take(i + 1).drop_last() =~= s.take(i));
    assert(s.take(i + 1).last() == s[i]);
}

/// Parses the token occupying `[from, to)` of the specification text.
fn parse_token(s: &str, from: usize, to: usize) -> (r: Option<(u16, u16)>)
    requires
        from <= to <= s@.len(),
    ensures
        r == token_bounds(s@.subrange(from as int, to as int)),
{
    let ghost t = s@.subrange(from as int, to as int);
    let (a, b) = trim_bounds(s, from, to);
    let ghost u = s@.subrange(a as int, b as int);
    // locate the first dash inside the trimmed interval
    let mut k: usize = a;
    while k < b && s.get_char(k) != '-'
        invariant
            a <= k <= b <= s@.len(),
            forall|j: int| 0 <= j < k - a ==> u[j] != '-',
            u == s@.subrange(a as int, b as int),
        decreases b - k,
    {
        proof {
            assert(u[k - a] == s@[k as int]);
        }
        k += 1;
    }
    if k == b {
        // no dash: a single port number
        proof {
            lemma_first_idx_at(u, '-', b - a);
            assert(first_idx(u, '-') is None);
        }
        match parse_number(s, a, b) {
            Some(v) => {
                proof {
                    lemma_dec_value_nonneg(u);
                }
                Some((v, v))
            },
            None => None,
        }
    } else {
        proof {
            assert(u[k - a] == s@[k as int]);
            lemma_first_idx_at(u, '-', k - a);
            assert(first_idx(u, '-') == Some(k - a));
        }
        // a second dash makes the token ill-formed
        let mut k3: usize = k + 1;
        while k3 < b && s.get_char(k3) != '-'
            invariant
                k + 1 <= k3 <= b <= s@.len(),
                a <= k < b,
                forall|j: int| k + 1 <= j < k3 ==> s@[j] != '-',
            decreases b - k3,
        {
            k3 += 1;
        }
        let ghost v2 = u.skip(k - a + 1);
        proof {
            assert(v2 =~= s@.subrange(k as int + 1, b as int));
        }
        if k3 < b {
            proof {
                assert(s@[k3 as int] == '-');
                assert(v2[k3 - k - 1] == '-');
            }
            return None;
        }
        proof {
            assert(forall|j: int| 0 <= j < v2.len() ==> v2[j] != '-');
        }
        let (a1, b1) = trim_bounds(s, a, k);
        let (a2, b2) = trim_bounds(s, k + 1, b);
        proof {
            assert(u.take(k - a) =~= s@.subrange(a as int, k as int));
        }
        let lo = match parse_number(s, a1, b1) {
            Some(v) => v,
            None => {
                return None;
            },
        };
        let hi = match parse_number(s, a2, b2) {
            Some(v) => v,
            None => {
                return None;
            },
        };
        if lo > hi {
            return None;
        }
        proof {
            lemma_dec_value_nonneg(s@.subrange(a1 as int, b1 as int));
            lemma_dec_value_nonneg(s@.subrange(a2 as int, b2 as int));
        }
        Some((lo, hi))
    }
}

proof fn lemma_count_false(s: Seq<bool>)
    requires
        forall|q: int| 0 <= q < s.len() ==> !s[q],
    ensures
        count_true(s) == 0,
    decreases s.len(),
{
    if s.len() > 0 {
        lemma_count_false(s.drop_last());
    }
}

/// Expanded, deduplicated, ascending ports of one parsed specification,
/// handed out one at a time.
pub struct PortIterator {
    ports: Vec<u16>,
    current: usize,
}

impl PortIterator {
    /// The expanded ports, in ascending order.
    pub closed spec fn ports_seq(&self) -> Seq<u16> {
        self.ports@
    }

    /// How many ports have already been handed out.
    pub closed spec fn position(&self) -> int {
        self.current as int
    }

    pub open spec fn wf(&self) -> bool {
        (forall|i: int, j: int|
            0 <= i < j < self.ports_seq().len() ==> self.ports_seq()[i] < self.ports_seq()[j])
            && 0 <= self.position() <= self.ports_seq().len()
    }

    /// Parses a comma-separated port specification into its ascending,
    /// duplicate-free expansion; rejects any ill-formed token - naming it in
    /// the error - and any specification expanding past the entry cap, and
    /// nothing else.
    pub fn new(port_string: &str) -> (r: Result<Self, String>)
        ensures
            r is Ok <==> spec_ports_ok(port_string@),
            r matches Ok(it) ==> it.wf() && it.position() == 0 && it.ports_seq().len() <= 65535
                && (forall|p: u16|
                it.ports_seq().contains(p) <==> in_spec_ports(port_string@, p)),
            r matches Err(m) ==> ({
                let toks = spec_tokens(port_string@);
                (total_size(toks) > 65535 && m@ == "too many ports in specification"@) || (
                exists|i: int|
                    0 <= i < toks.len() && token_bounds(#[trigger] toks[i]) is None && m@
                        == "invalid port token: "@ + toks[i])
            }),
    {
        let ghost s = port_string@;
        let n = port_string.unicode_len();
        let mut present: Vec<bool> = Vec::new();
        let mut z: usize = 0;
        while z < 65536
            invariant
                present@.len() == z,
                z <= 65536,
                forall|q: int| 0 <= q < z ==> !present@[q],
            decreases 65536 - z,
        {
            present.push(false);
            z += 1;
        }
        proof {
            lemma_count_false(present@);
            assert(s.skip(0) =~= s);
        }
        let mut count: usize = 0;
        let mut marked: usize = 0;
        let mut start: usize = 0;
        let mut finished: bool = false;
        let ghost mut done: Seq<Seq<char>> = Seq::empty();
        while !finished
            invariant
                s == port_string@,
                n == s.len(),
                start <= n,
                present@.len() == 65536,
                count <= 65535,
                marked <= count,
                marked == count_true(present@),
                all_tokens_valid(done),
                count == total_size(done),
                forall|q: int| 0 <= q < 65536 ==> #[trigger] present@[q] == in_tokens(done, q as u16),
                !finished ==> spec_tokens(s) =~~= done + spec_split(s.skip(start as int), ','),
                finished ==> spec_tokens(s) =~~= done,
            decreases n - start + (if finished {
                0int
            } else {
                1int
            }),
        {
            let mut j: usize = start;
            while j < n && port_string.get_char(j) != ','
                invariant
                    s == port_string@,
                    start <= j <= n,
                    n == s.len(),
                    forall|k: int| start <= k < j ==> s[k] != ',',
                decreases n - j,
            {
                j += 1;
            }
            let ghost t = s.subrange(start as int, j as int);
            proof {
                let rem = s.skip(start as int);
                assert forall|k: int| 0 <= k < t.len() implies t[k] != ',' by {
                    assert(t[k] == s[start + k]);
                }
                if j == n {
                    assert(rem =~= t);
                    lemma_split_single(t, ',');
                } else {
                    assert(s[j as int] == ',');
                    assert(rem =~= t + seq![','] + s.skip(j as int + 1));
                    lemma_split_prefix(t, ',', s.skip(j as int + 1));
                }
            }
            match parse_token(port_string, start, j) {
                None => {
                    proof {
                        assert(spec_tokens(s)[done.len() as int] == t);
                        assert(!all_tokens_valid(spec_tokens(s)));
                    }
                    let mut msg = String::from_str("invalid port token: ");
                    msg.append(port_string.substring_char(start, j));
                    proof {
                        assert(token_bounds(spec_tokens(s)[done.len() as int]) is None);
                        assert(msg@ == "invalid port token: "@ + spec_tokens(s)[done.len() as int]);
                    }
                    return Err(msg);
                },
                Some((lo, hi)) => {
                    proof {
                        lemma_tok_size(t);
                    }
                    let size: usize = (hi - lo) as usize + 1;
                    if count + size > 65535 {
                        proof {
                            lemma_total_size_snoc(done, t);
                            if j == n {
                                assert(spec_tokens(s) =~~= done.push(t));
                            } else {
                                let rest = spec_split(s.skip(j as int + 1), ',');
                                assert(spec_tokens(s) =~~= done.push(t) + rest);
                                lemma_total_size_app(done.push(t), rest);
                                lemma_total_size_nonneg(rest);
                            }
                            assert(total_size(spec_tokens(s)) > 65535);
                        }
                        return Err(String::from_str("too many ports in specification"));
                    }
                    count += size;
                    let mut p: usize = lo as usize;
                    while p <= hi as usize
                        invariant
                            lo as usize <= p <= hi as usize + 1,
                            present@.len() == 65536,
                            count <= 65535,
                            size == hi - lo + 1,
                            marked <= count - size + (p - lo as usize),
                            marked == count_true(present@),
                            token_bounds(t) == Some((lo, hi)),
                            forall|q: int|
                                0 <= q < 65536 ==> #[trigger] present@[q] == (in_tokens(
                                    done,
                                    q as u16,
                                ) || (lo as int <= q && q < p as int)),
                        decreases hi as usize + 1 - p,
                    {
                        let cur: bool = present[p];
                        if !cur {
                            proof {
                                lemma_count_true_update(present@, p as int);
                            }
                            present[p] = true;
                            marked += 1;
                        }
                        proof {
                            assert forall|q: int| 0 <= q < 65536 implies #[trigger] present@[q]
                                == (in_tokens(done, q as u16) || (lo as int <= q && q < p as int
                                + 1)) by {
                                if q == p as int {
                                    assert(present@[q]);
                                }
                            }
                        }
                        p += 1;
                    }
                    proof {
                        assert forall|q: int| 0 <= q < 65536 implies #[trigger] present@[q]
                            == in_tokens(done.push(t), q as u16) by {
                            lemma_in_tokens_snoc(done, t, q as u16);
                            assert(in_token(t, q as u16) == (lo as int <= q && q <= hi as int));
                        }
                        lemma_total_size_snoc(done, t);
                        done = done.push(t);
                        if j < n {
                            assert(spec_tokens(s) =~~= done + spec_split(s.skip(j as int + 1), ','));
                        } else {
                            assert(spec_tokens(s) =~~= done);
                        }
                    }
                },
            }
            if j == n {
                finished = true;
            } else {
                start = j + 1;
            }
        }
        let mut ports: Vec<u16> = Vec::new();
        let mut p2: usize = 0;
        while p2 < 65536
            invariant
                present@.len() == 65536,
                p2 <= 65536,
                marked <= 65535,
                marked == count_true(present@),
                forall|i: int, j2: int| 0 <= i < j2 < ports@.len() ==> ports@[i] < ports@[j2],
                forall|q: u16|
                    #[trigger] ports@.contains(q) == ((q as int) < p2 as int
                        && present@[q as int]),
                ports@.len() == count_true(present@.take(p2 as int)),
                forall|q: int| 0 <= q < 65536 ==> #[trigger] present@[q] == in_tokens(done, q as u16),
                spec_tokens(s) =~~= done,
                all_tokens_valid(done),
                count <= 65535,
                count == total_size(done),
            decreases 65536 - p2,
        {
            proof {
                lemma_count_true_step(present@, p2 as int);
            }
            if present[p2] {
                let v: u16 = p2 as u16;
                proof {
                    assert forall|i: int| 0 <= i < ports@.len() implies ports@[i] < v by {
                        assert(ports@.contains(ports@[i]));
                    }
                }
                let ghost old_ports = ports@;
                ports.push(v);
                proof {
                    assert forall|q: u16|
                        ports@.contains(q) == ((q as int) < p2 + 1 && present@[q as int]) by {
                        if old_ports.contains(q) {
                            let i = choose|i: int| 0 <= i < old_ports.len() && old_ports[i] == q;
                            assert(ports@[i] == q);
                            assert(ports@.contains(q));
                        }
                        if ports@.contains(q) {
                            let i = choose|i: int| 0 <= i < ports@.len() && ports@[i] == q;
                            if i < old_ports.len() {
                                assert(old_ports[i] == q);
                                assert(old_ports.contains(q));
                            } else {
                                assert(q == v);
                            }
                        }
                        if q == v {
                            assert(ports@[old_ports.len() as int] == q);
                            assert(ports@.contains(q));
                        }
                    }
                }
            } else {
                proof {
                    assert forall|q: u16|
                        ports@.contains(q) == ((q as int) < p2 + 1 && present@[q as int]) by {
                        if (q as int) == p2 as int {
                            assert(!present@[q as int]);
                        }
                    }
                }
            }
            p2 += 1;
        }
        proof {
            assert(present@.take(65536) =~= present@);
        }
        Ok(PortIterator { ports, current: 0 })
    }

    /// An iterator over no ports at all.
    pub(crate) fn empty() -> (r: Self)
        ensures
            r.ports_seq().len() == 0,
            r.position() == 0,
            r.wf(),
    {
        PortIterator { ports: Vec::new(), current: 0 }
    }

    pub fn len(&self) -> (n: usize)
        ensures
            n == self.ports_seq().len(),
    {
        self.ports.len()
    }

    pub fn is_empty(&self) -> (r: bool)
        ensures
            r == (self.ports_seq().len() == 0),
    {
        self.ports.len() == 0
    }

    /// The whole expansion as a vector, in ascending order.
    pub fn into_vec(self) -> (r: Vec<u16>)
        ensures
            r@ == self.ports_seq(),
    {
        self.ports
    }

    /// Hands out the next port in ascending order, if one is left.
    pub fn next(&mut self) -> (r: Option<u16>)
        ensures
            final(self).ports_seq() == old(self).ports_seq(),
            old(self).position() < old(self).ports_seq().len() ==> (r == Some(
                old(self).ports_seq()[old(self).position()],
            ) && final(self).position() == old(self).position() + 1),
            old(self).position() >= old(self).ports_seq().len() ==> (r is None
                && final(self).position() == old(self).position()),
    {
        if self.current < self.ports.len() {
            let port = self.ports[self.current];
            self.current += 1;
            Some(port)
        } else {
            None
        }
    }
}

// ---------------------------------------------------------------------------
// Compressing a sorted port list back into its textual form
// ---------------------------------------------------------------------------
/// Last index of the maximal run of consecutive values starting at `i`.
pub open spec fn run_end(ps: Seq<u16>, i: int) -> int
    decreases ps.len() - i,
{
    if i + 1 >= ps.len() || ps[i + 1] != ps[i] + 1 {
        i
    } else {
        run_end(ps, i + 1)
    }
}

pub proof fn lemma_run_end(ps: Seq<u16>, i: int)
    requires
        0 <= i < ps.len(),
    ensures
        i <= run_end(ps, i) < ps.len(),
        forall|j: int| i <= j <= run_end(ps, i) ==> ps[j] == ps[i] + (j - i),
        run_end(ps, i) + 1 < ps.len() ==> ps[run_end(ps, i) + 1] != ps[run_end(ps, i)] + 1,
    decreases ps.len() - i,
{
    if !(i + 1 >= ps.len() || ps[i + 1] != ps[i] + 1) {
        lemma_run_end(ps, i + 1);
        assert forall|j: int| i <= j <= run_end(ps, i) implies ps[j] == ps[i] + (j - i) by {
            if j > i {
                assert(ps[j] == ps[i + 1] + (j - (i + 1)));
            }
        }
    }
}

/// The compressed textual form of the sorted ports from index `i` on:
/// maximal runs as `lo-hi`, singletons as `lo`, joined by commas.
pub open spec fn spec_compress_from(ps: Seq<u16>, i: int) -> Seq<char>
    decreases ps.len() - i,
    via spec_compress_from_dec
{
    if i < 0 || i >= ps.len() {
        Seq::empty()
    } else {
        let e = run_end(ps, i);
        let piece = if e == i {
            spec_dec(ps[i] as int)
        } else {
            spec_dec(ps[i] as int) + seq!['-'] + spec_dec(ps[e] as int)
        };
        if e + 1 >= ps.len() {
            piece
        } else {
            piece + seq![','] + spec_compress_from(ps, e + 1)
        }
    }
}

#[via_fn]
proof fn spec_compress_from_dec(ps: Seq<u16>, i: int) {
    if 0 <= i && i < ps.len() {
        lemma_run_end(ps, i);
    }
}

/// Run-length compression of a port list; empty input gives the empty string.
pub open spec fn spec_compress(ps: Seq<u16>) -> Seq<char> {
    spec_compress_from(ps, 0)
}

/// Renders a port list in its compressed textual range form.
pub fn format_ports(ports: &[u16]) -> (r: String)
    ensures
        r@ == spec_compress(ports@),
{
    let ghost ps = ports@;
    let n = ports.len();
    let mut out = String::new();
    let mut i: usize = 0;
    while i < n
        invariant
            ps == ports@,
            n == ps.len(),
            i <= n,
            out@ + spec_compress_from(ps, i as int) =~= spec_compress(ps),
        decreases n - i,
    {
        let mut e: usize = i;
        while e + 1 < n && (ports[e + 1] as u32) == (ports[e] as u32) + 1
            invariant
                ps == ports@,
                n == ps.len(),
                i <= e < n,
                run_end(ps, i as int) == run_end(ps, e as int),
            decreases n - e,
        {
            e += 1;
        }
        proof {
            assert(run_end(ps, e as int) == e as int);
        }
        let ghost before = out@;
        let lo_text = u64_to_dec(ports[i] as u64);
        out.append(lo_text.as_str());
        if e > i {
            out.append("-");
            let hi_text = u64_to_dec(ports[e] as u64);
            out.append(hi_text.as_str());
            proof {
                reveal_strlit("-");
                assert("-"@ =~= seq!['-']);
                assert(out@ =~= before + (spec_dec(ps[i as int] as int) + seq!['-'] + spec_dec(
                    ps[e as int] as int,
                )));
            }
        }
        if e + 1 < n {
            out.append(",");
            proof {
                reveal_strlit(",");
                assert(","@ =~= seq![',']);
            }
        }
        proof {
            assert(out@ + spec_compress_from(ps, e as int + 1) =~= spec_compress(ps));
        }
        i = e + 1;
    }
    proof {
        assert(out@ =~= spec_compress(ps));
    }
    out
}

// ---------------------------------------------------------------------------
// The parse/compress round trip
// ---------------------------------------------------------------------------
proof fn lemma_dec_piece_chars(n: int)
    requires
        n >= 0,
    ensures
        forall|k: int|
            0 <= k < spec_dec(n).len() ==> (48 <= #[trigger] spec_dec(n)[k] as u32 <= 57),
{
    lemma_spec_dec_digits(n);
}

proof fn lemma_in_tokens_cons(t: Seq<char>, rest: Seq<Seq<char>>, p: u16)
    ensures
        in_tokens(seq![t] + rest, p) == (in_token(t, p) || in_tokens(rest, p)),
{
    let y = seq![t] + rest;
    if in_token(t, p) {
        assert(y[0] == t);
        assert(in_tokens(y, p));
    }
    if in_tokens(rest, p) {
        let i = choose|i: int| 0 <= i < rest.len() && in_token(#[trigger] rest[i], p);
        assert(y[i + 1] == rest[i]);
        assert(in_tokens(y, p));
    }
    if in_tokens(y, p) {
        let i = choose|i: int| 0 <= i < y.len() && in_token(#[trigger] y[i], p);
        if i == 0 {
            assert(y[0] == t);
        } else {
            assert(y[i] == rest[i - 1]);
            assert(in_tokens(rest, p));
        }
    }
}

/// A run piece (`lo` or `lo-hi` in decimal) is a well-formed token meaning
/// exactly the interval of that run.
proof fn lemma_piece_token(lo: u16, hi: u16, piece: Seq<char>)
    requires
        lo <= hi,
        piece == (if lo == hi {
            spec_dec(lo as int)
        } else {
            spec_dec(lo as int) + seq!['-'] + spec_dec(hi as int)
        }),
    ensures
        token_bounds(piece) == Some((lo, hi)),
        forall|k: int| 0 <= k < piece.len() ==> piece[k] != ',' && !is_space(#[trigger] piece[k]),
{
    let d1 = spec_dec(lo as int);
    let d2 = spec_dec(hi as int);
    lemma_dec_piece_chars(lo as int);
    lemma_dec_piece_chars(hi as int);
    lemma_spec_dec_digits(lo as int);
    lemma_spec_dec_digits(hi as int);
    lemma_dec_value_spec_dec(lo as int);
    lemma_dec_value_spec_dec(hi as int);
    if lo == hi {
        lemma_trim_id(piece);
        assert forall|j: int| 0 <= j < piece.len() implies piece[j] != '-' by {
            assert(is_digit(d1[j]));
        }
        lemma_first_idx_at(piece, '-', piece.len() as int);
        assert(token_bounds(piece) == Some((lo, hi)));
    } else {
        assert(piece =~= d1 + seq!['-'] + d2);
        assert forall|k: int| 0 <= k < piece.len() implies piece[k] != ',' && !is_space(
            #[trigger] piece[k],
        ) by {
            if k < d1.len() {
                assert(piece[k] == d1[k]);
            } else if k == d1.len() {
                assert(piece[k] == '-');
            } else {
                assert(piece[k] == d2[k - d1.len() - 1]);
            }
        }
        lemma_trim_id(piece);
        assert forall|j: int| 0 <= j < d1.len() implies piece[j] != '-' by {
            assert(piece[j] == d1[j]);
            assert(is_digit(d1[j]));
        }
        assert(piece[d1.len() as int] == '-');
        lemma_first_idx_at(piece, '-', d1.len() as int);
        let tail = piece.skip(d1.len() as int + 1);
        assert(tail =~= d2);
        assert(piece.take(d1.len() as int) =~= d1);
        lemma_trim_id(d1);
        lemma_trim_id(d2);
        assert forall|j: int| 0 <= j < tail.len() implies tail[j] != '-' by {
            assert(is_digit(d2[j]));
        }
        assert(token_bounds(piece) == Some((lo, hi)));
    }
}

/// Inductive core of the round trip: the compressed text of the sorted tail
/// `ps[i..]` parses back to exactly those ports, one expansion entry each.
proof fn lemma_compress_from_round_trip(ps: Seq<u16>, i: int)
    requires
        0 <= i < ps.len(),
        forall|a: int, b: int| 0 <= a < b < ps.len() ==> ps[a] < ps[b],
    ensures
        all_tokens_valid(spec_tokens(spec_compress_from(ps, i))),
        total_size(spec_tokens(spec_compress_from(ps, i))) == ps.len() - i,
        forall|p: u16|
            in_tokens(spec_tokens(spec_compress_from(ps, i)), p) <==> (exists|j: int|
                i <= j < ps.len() && ps[j] == p),
    decreases ps.len() - i,
{
    lemma_run_end(ps, i);
    let e = run_end(ps, i);
    let lo = ps[i];
    let hi = ps[e];
    let piece = if e == i {
        spec_dec(lo as int)
    } else {
        spec_dec(lo as int) + seq!['-'] + spec_dec(hi as int)
    };
    assert(hi == lo + (e - i));
    assert(e > i ==> lo < hi);
    lemma_piece_token(lo, hi, piece);
    let s = spec_compress_from(ps, i);
    assert forall|p: u16| in_token(piece, p) <==> (exists|j: int| i <= j <= e && ps[j] == p) by {
        if lo <= p <= hi {
            let j = i + (p - lo);
            assert(ps[j] == lo + (j - i));
            assert(ps[j] == p);
        }
        if exists|j: int| i <= j <= e && ps[j] == p {
            let j = choose|j: int| i <= j <= e && ps[j] == p;
            assert(ps[j] == lo + (j - i));
        }
    }
    if e + 1 >= ps.len() {
        assert(s == piece);
        lemma_split_single(piece, ',');
        assert(spec_tokens(s) =~~= seq![piece]);
        assert(spec_tokens(s)[0] == piece);
        assert(spec_tokens(s).drop_first() =~= Seq::<Seq<char>>::empty());
        assert(total_size(Seq::<Seq<char>>::empty()) == 0);
        assert(total_size(spec_tokens(s)) == tok_size(piece));
        assert forall|p: u16|
            in_tokens(spec_tokens(s), p) <==> (exists|j: int| i <= j < ps.len() && ps[j] == p) by {
            lemma_in_tokens_cons(piece, Seq::<Seq<char>>::empty(), p);
            assert(seq![piece] + Seq::<Seq<char>>::empty() =~= spec_tokens(s));
            if in_tokens(Seq::<Seq<char>>::empty(), p) {
                let k = choose|k: int|
                    0 <= k < Seq::<Seq<char>>::empty().len() && in_token(
                        #[trigger] Seq::<Seq<char>>::empty()[k],
                        p,
                    );
                assert(false);
            }
        }
    } else {
        let rest_str = spec_compress_from(ps, e + 1);
        assert(s == piece + seq![','] + rest_str);
        lemma_compress_from_round_trip(ps, e + 1);
        lemma_split_prefix(piece, ',', rest_str);
        let rest_toks = spec_tokens(rest_str);
        assert(spec_tokens(s) =~~= seq![piece] + rest_toks);
        assert forall|k: int|
            0 <= k < spec_tokens(s).len() implies token_bounds(
            #[trigger] spec_tokens(s)[k],
        ) is Some by {
            if k == 0 {
                assert(spec_tokens(s)[0] == piece);
            } else {
                assert(spec_tokens(s)[k] == rest_toks[k - 1]);
            }
        }
        assert((seq![piece] + rest_toks)[0] == piece);
        assert((seq![piece] + rest_toks).drop_first() =~= rest_toks);
        assert(total_size(spec_tokens(s)) == tok_size(piece) + total_size(rest_toks));
        assert(tok_size(piece) == e - i + 1);
        assert forall|p: u16|
            in_tokens(spec_tokens(s), p) <==> (exists|j: int| i <= j < ps.len() && ps[j] == p) by {
            lemma_in_tokens_cons(piece, rest_toks, p);
            if in_token(piece, p) {
                let j = choose|j: int| i <= j <= e && ps[j] == p;
                assert(i <= j < ps.len() && ps[j] == p);
            }
            if in_tokens(rest_toks, p) {
                let j = choose|j: int| e + 1 <= j < ps.len() && ps[j] == p;
                assert(i <= j < ps.len() && ps[j] == p);
            }
            if exists|j: int| i <= j < ps.len() && ps[j] == p {
                let j = choose|j: int| i <= j < ps.len() && ps[j] == p;
                if j <= e {
                    assert(in_token(piece, p));
                } else {
                    assert(exists|j2: int| e + 1 <= j2 < ps.len() && ps[j2] == p);
                }
            }
        }
    }
}

/// Law: compressing a sorted, duplicate-free, non-empty port list yields a
/// specification that parses back to exactly the same set of ports.
pub proof fn lemma_compress_parse_round_trip(ps: Seq<u16>)
    requires
        1 <= ps.len() <= 65535,
        forall|a: int, b: int| 0 <= a < b < ps.len() ==> ps[a] < ps[b],
    ensures
        spec_ports_ok(spec_compress(ps)),
        forall|p: u16| in_spec_ports(spec_compress(ps), p) <==> ps.contains(p),
{
    lemma_compress_from_round_trip(ps, 0);
}

} // verus!
