//! Character-level text utilities shared by the parsing and formatting code:
//! decimal rendering, token splitting, trimming, case mapping and searching,
//! each specified over `Seq<char>`.

use vstd::prelude::*;
use vstd::string::{StrSliceExecFns, StringExecFns};

verus! {

// ---------------------------------------------------------------------------
// Character classes
// ---------------------------------------------------------------------------
pub open spec fn is_digit(c: char) -> bool {
    48 <= c as u32 <= 57
}

pub open spec fn digit_val(c: char) -> int {
    c as u32 - 48
}

pub open spec fn is_space(c: char) -> bool {
    c as u32 == 32 || c as u32 == 9 || c as u32 == 10 || c as u32 == 13
}

pub open spec fn all_digits(s: Seq<char>) -> bool {
    s.len() > 0 && forall|i: int| 0 <= i < s.len() ==> is_digit(#[trigger] s[i])
}

pub(crate) fn is_digit_exec(c: char) -> (r: bool)
    ensures
        r == is_digit(c),
{
    let n = c as u32;
    48 <= n && n <= 57
}

pub(crate) fn is_space_exec(c: char) -> (r: bool)
    ensures
        r == is_space(c),
{
    let n = c as u32;
    n == 32 || n == 9 || n == 10 || n == 13
}

// ---------------------------------------------------------------------------
// Decimal numerals
// ---------------------------------------------------------------------------
/// Numeric value of a digit string, most significant digit first.
pub open spec fn dec_value(s: Seq<char>) -> int
    decreases s.len(),
{
    if s.len() == 0 {
        0
    } else {
        dec_value(s.drop_last()) * 10 + digit_val(s.last())
    }
}

pub open spec fn digit_char(d: int) -> char {
    if d == 0 {
        '0'
    } else if d == 1 {
        '1'
    } else if d == 2 {
        '2'
    } else if d == 3 {
        '3'
    } else if d == 4 {
        '4'
    } else if d == 5 {
        '5'
    } else if d == 6 {
        '6'
    } else if d == 7 {
        '7'
    } else if d == 8 {
        '8'
    } else {
        '9'
    }
}

/// Decimal numeral of a non-negative integer, without leading zeros.
pub open spec fn spec_dec(n: int) -> Seq<char>
    decreases n,
{
    if n <= 0 {
        seq!['0']
    } else if n < 10 {
        seq![digit_char(n)]
    } else {
        spec_dec(n / 10).push(digit_char(n % 10))
    }
}

pub proof fn lemma_spec_dec_digits(n: int)
    ensures
        all_digits(spec_dec(n)),
    decreases n,
{
    if n >= 10 {
        lemma_spec_dec_digits(n / 10);
    }
}

pub proof fn lemma_dec_value_nonneg(s: Seq<char>)
    requires
        forall|i: int| 0 <= i < s.len() ==> is_digit(#[trigger] s[i]),
    ensures
        dec_value(s) >= 0,
    decreases s.len(),
{
    if s.len() > 0 {
        lemma_dec_value_nonneg(s.drop_last());
    }
}

pub proof fn lemma_dec_value_spec_dec(n: int)
    requires
        n >= 0,
    ensures
        dec_value(spec_dec(n)) == n,
    decreases n,
{
    if n < 10 {
        assert(digit_val(digit_char(n)) == n);
        assert(spec_dec(n) =~= seq![digit_char(n)]);
        assert(seq![digit_char(n)].last() == digit_char(n));
        assert(seq![digit_char(n)].drop_last() =~= Seq::<char>::empty());
        assert(dec_value(Seq::<char>::empty()) == 0);
        assert(dec_value(seq![digit_char(n)]) == dec_value(Seq::<char>::empty()) * 10 + digit_val(
            digit_char(n),
        ));
    } else {
        lemma_dec_value_spec_dec(n / 10);
        assert(digit_val(digit_char(n % 10)) == n % 10);
        assert(spec_dec(n / 10).push(digit_char(n % 10)).last() == digit_char(n % 10));
        assert(spec_dec(n / 10).push(digit_char(n % 10)).drop_last() =~= spec_dec(n / 10));
        assert(dec_value(spec_dec(n)) == dec_value(spec_dec(n / 10)) * 10 + digit_val(
            digit_char(n % 10),
        ));
    }
}

/// A prefix of a digit string never exceeds the whole string's value.
pub proof fn lemma_dec_value_prefix(s: Seq<char>, j: int)
    requires
        0 <= j <= s.len(),
        forall|i: int| 0 <= i < s.len() ==> is_digit(#[trigger] s[i]),
    ensures
        dec_value(s.take(j)) <= dec_value(s),
    decreases s.len() - j,
{
    if j < s.len() {
        lemma_dec_value_prefix(s, j + 1);
        assert(s.take(j + 1).drop_last() =~= s.take(j));
        assert(s.take(j + 1).last() == s[j]);
        lemma_dec_value_nonneg(s.take(j));
    } else {
        assert(s.take(j) =~= s);
    }
}

fn digit_str(d: u64) -> (r: &'static str)
    requires
        d < 10,
    ensures
        r@ =~= seq![digit_char(d as int)],
{
    let s: &'static str = if d == 0 {
        "0"
    } else if d == 1 {
        "1"
    } else if d == 2 {
        "2"
    } else if d == 3 {
        "3"
    } else if d == 4 {
        "4"
    } else if d == 5 {
        "5"
    } else if d == 6 {
        "6"
    } else if d == 7 {
        "7"
    } else if d == 8 {
        "8"
    } else {
        "9"
    };
    proof {
        reveal_strlit("0");
        reveal_strlit("1");
        reveal_strlit("2");
        reveal_strlit("3");
        reveal_strlit("4");
        reveal_strlit("5");
        reveal_strlit("6");
        reveal_strlit("7");
        reveal_strlit("8");
        reveal_strlit("9");
        assert(s@ =~= seq![digit_char(d as int)]);
    }
    s
}

/// Renders `n` in decimal, matching `spec_dec`.
pub fn u64_to_dec(n: u64) -> (s: String)
    ensures
        s@ == spec_dec(n as int),
    decreases n,
{
    if n < 10 {
        let s = String::from_str(digit_str(n));
        proof {
            assert(s@ =~= spec_dec(n as int));
        }
        s
    } else {
        let mut s = u64_to_dec(n / 10);
        s.append(digit_str(n % 10));
        proof {
            assert(s@ =~= spec_dec(n as int));
        }
        s
    }
}

// ---------------------------------------------------------------------------
// Equality and search
// ---------------------------------------------------------------------------
/// Character-wise string equality, decided without trusting any outside code.
pub(crate) fn str_eq(a: &str, b: &str) -> (r: bool)
    ensures
        r == (a@ == b@),
{
    let la = a.unicode_len();
    let lb = b.unicode_len();
    if la != lb {
        return false;
    }
    let mut i: usize = 0;
    while i < la
        invariant
            la == a@.len(),
            la == b@.len(),
            i <= la,
            forall|j: int| 0 <= j < i ==> a@[j] == b@[j],
        decreases la - i,
    {
        let ca = a.get_char(i);
        let cb = b.get_char(i);
        if ca != cb {
            return false;
        }
        i += 1;
    }
    proof {
        assert(a@ =~= b@);
    }
    true
}

/// Index of the first occurrence of `c` in `s`, if any.
pub open spec fn first_idx(s: Seq<char>, c: char) -> Option<int>
    decreases s.len(),
{
    if s.len() == 0 {
        None
    } else if s[0] == c {
        Some(0int)
    } else {
        match first_idx(s.drop_first(), c) {
            Some(i) => Some(i + 1),
            None => None,
        }
    }
}

/// Characterizes `first_idx` from a scan that found no earlier occurrence.
pub proof fn lemma_first_idx_at(s: Seq<char>, c: char, m: int)
    requires
        0 <= m <= s.len(),
        forall|j: int| 0 <= j < m ==> s[j] != c,
        m < s.len() ==> s[m] == c,
    ensures
        m == s.len() ==> first_idx(s, c) is None,
        m < s.len() ==> first_idx(s, c) == Some(m),
    decreases m,
{
    if m == 0 {
        if s.len() > 0 {
            assert(s[0] == c);
        } else {
            assert(first_idx(s, c) is None);
        }
    } else {
        lemma_first_idx_at(s.drop_first(), c, m - 1);
    }
}

pub(crate) fn find_char(s: &str, c: char) -> (r: Option<usize>)
    ensures
        match r {
            None => first_idx(s@, c) is None,
            Some(i) => first_idx(s@, c) == Some(i as int),
        },
{
    let n = s.unicode_len();
    let mut i: usize = 0;
    while i < n
        invariant
            n == s@.len(),
            i <= n,
            forall|j: int| 0 <= j < i ==> s@[j] != c,
        decreases n - i,
    {
        if s.get_char(i) == c {
            proof {
                lemma_first_idx_at(s@, c, i as int);
            }
            return Some(i);
        }
        i += 1;
    }
    proof {
        lemma_first_idx_at(s@, c, n as int);
    }
    None
}

// ---------------------------------------------------------------------------
// Trimming
// ---------------------------------------------------------------------------
pub open spec fn trim_front(s: Seq<char>) -> Seq<char>
    decreases s.len(),
{
    if s.len() > 0 && is_space(s[0]) {
        trim_front(s.drop_first())
    } else {
        s
    }
}

pub open spec fn trim_back(s: Seq<char>) -> Seq<char>
    decreases s.len(),
{
    if s.len() > 0 && is_space(s.last()) {
        trim_back(s.drop_last())
    } else {
        s
    }
}

/// The token with surrounding whitespace removed.
pub open spec fn spec_trim(s: Seq<char>) -> Seq<char> {
    trim_back(trim_front(s))
}

proof fn lemma_trim_back_head(s: Seq<char>)
    requires
        s.len() >= 1,
        !is_space(s[0]),
    ensures
        trim_back(s).len() >= 1,
    decreases s.len(),
{
    if is_space(s.last()) {
        assert(s.len() >= 2);
        assert(s.drop_last()[0] == s[0]);
        lemma_trim_back_head(s.drop_last());
    }
}

/// Trimming leaves nothing exactly when every character is whitespace.
pub proof fn lemma_blank(s: Seq<char>)
    ensures
        (spec_trim(s).len() == 0) <==> (forall|i: int|
            0 <= i < s.len() ==> is_space(#[trigger] s[i])),
    decreases s.len(),
{
    if s.len() == 0 {
    } else if is_space(s[0]) {
        lemma_blank(s.drop_first());
        if spec_trim(s).len() == 0 {
            assert forall|i: int| 0 <= i < s.len() implies is_space(#[trigger] s[i]) by {
                if i > 0 {
                    assert(s[i] == s.drop_first()[i - 1]);
                }
            }
        } else {
            assert(spec_trim(s.drop_first()).len() > 0);
            let j = choose|j: int|
                0 <= j < s.drop_first().len() && !is_space(#[trigger] s.drop_first()[j]);
            assert(!is_space(s[j + 1]));
        }
    } else {
        lemma_trim_back_head(s);
    }
}

/// Whether trimming the string leaves nothing.
pub(crate) fn is_blank(s: &str) -> (r: bool)
    ensures
        r == (spec_trim(s@).len() == 0),
{
    let n = s.unicode_len();
    let mut i: usize = 0;
    while i < n
        invariant
            i <= n,
            n == s@.len(),
            forall|j: int| 0 <= j < i ==> is_space(#[trigger] s@[j]),
        decreases n - i,
    {
        if !is_space_exec(s.get_char(i)) {
            proof {
                lemma_blank(s@);
            }
            return false;
        }
        i += 1;
    }
    proof {
        lemma_blank(s@);
    }
    true
}

pub proof fn lemma_trim_id(s: Seq<char>)
    requires
        forall|i: int| 0 <= i < s.len() ==> !is_space(#[trigger] s[i]),
    ensures
        spec_trim(s) == s,
{
    if s.len() > 0 {
        assert(!is_space(s[0]));
        assert(!is_space(s.last()));
    }
}

// ---------------------------------------------------------------------------
// Splitting on a separator character
// ---------------------------------------------------------------------------
/// The pieces of `s` between occurrences of `sep`; always at least one piece.
pub open spec fn spec_split(s: Seq<char>, sep: char) -> Seq<Seq<char>>
    decreases s.len(),
{
    if s.len() == 0 {
        seq![Seq::<char>::empty()]
    } else if s[0] == sep {
        seq![Seq::<char>::empty()] + spec_split(s.drop_first(), sep)
    } else {
        let rest = spec_split(s.drop_first(), sep);
        seq![seq![s[0]] + rest[0]] + rest.drop_first()
    }
}

pub proof fn lemma_split_len(s: Seq<char>, sep: char)
    ensures
        spec_split(s, sep).len() >= 1,
    decreases s.len(),
{
    if s.len() > 0 {
        lemma_split_len(s.drop_first(), sep);
    }
}

/// A separator-free string splits into just itself.
pub proof fn lemma_split_single(s: Seq<char>, sep: char)
    requires
        forall|i: int| 0 <= i < s.len() ==> s[i] != sep,
    ensures
        spec_split(s, sep) =~~= seq![s],
    decreases s.len(),
{
    if s.len() > 0 {
        assert forall|i: int| 0 <= i < s.drop_first().len() implies s.drop_first()[i] != sep by {
            assert(s.drop_first()[i] == s[i + 1]);
        }
        lemma_split_single(s.drop_first(), sep);
        assert(seq![s[0]] + s.drop_first() =~= s);
    }
}

/// Splitting after a separator-free head piece peels that piece off.
pub proof fn lemma_split_prefix(t: Seq<char>, sep: char, u: Seq<char>)
    requires
        forall|i: int| 0 <= i < t.len() ==> t[i] != sep,
    ensures
        spec_split(t + seq![sep] + u, sep) =~~= seq![t] + spec_split(u, sep),
    decreases t.len(),
{
    let s = t + seq![sep] + u;
    if t.len() == 0 {
        assert(s[0] == sep);
        assert(s.drop_first() =~= u);
    } else {
        assert(s[0] == t[0]);
        assert(s[0] != sep);
        assert forall|i: int| 0 <= i < t.drop_first().len() implies t.drop_first()[i] != sep by {
            assert(t.drop_first()[i] == t[i + 1]);
        }
        lemma_split_prefix(t.drop_first(), sep, u);
        assert(s.drop_first() =~= t.drop_first() + seq![sep] + u);
        let rest = spec_split(s.drop_first(), sep);
        assert(rest =~~= seq![t.drop_first()] + spec_split(u, sep));
        assert(rest[0] == t.drop_first());
        assert(seq![s[0]] + rest[0] =~= t);
        assert(rest.drop_first() =~~= spec_split(u, sep));
    }
}

// ---------------------------------------------------------------------------
// Whitespace tokenization
// ---------------------------------------------------------------------------
/// The maximal whitespace-free words of `s`, in order.
pub open spec fn spec_ws_tokens(s: Seq<char>) -> Seq<Seq<char>>
    decreases s.len(),
{
    if s.len() == 0 {
        Seq::empty()
    } else if is_space(s[0]) {
        spec_ws_tokens(s.drop_first())
    } else {
        let rest = spec_ws_tokens(s.drop_first());
        if s.len() == 1 || is_space(s[1]) {
            seq![seq![s[0]]] + rest
        } else {
            seq![seq![s[0]] + rest[0]] + rest.drop_first()
        }
    }
}

/// A whitespace-free word of length `w` at the front is the first token.
pub proof fn lemma_ws_tokens_word(s: Seq<char>, w: int)
    requires
        1 <= w <= s.len(),
        forall|k: int| 0 <= k < w ==> !is_space(#[trigger] s[k]),
        w == s.len() || is_space(s[w]),
    ensures
        spec_ws_tokens(s) =~~= seq![s.take(w)] + spec_ws_tokens(s.skip(w)),
    decreases w,
{
    if w == 1 {
        assert(s.take(1) =~= seq![s[0]]);
        assert(s.skip(1) =~= s.drop_first());
        if s.len() > 1 {
            assert(is_space(s[1]));
        }
    } else {
        assert(!is_space(s.drop_first()[0]));
        assert forall|k: int| 0 <= k < w - 1 implies !is_space(#[trigger] s.drop_first()[k]) by {
            assert(s.drop_first()[k] == s[k + 1]);
        }
        if w - 1 < s.drop_first().len() {
            assert(s.drop_first()[w - 1] == s[w]);
        }
        lemma_ws_tokens_word(s.drop_first(), w - 1);
        let rest = spec_ws_tokens(s.drop_first());
        assert(rest[0] == s.drop_first().take(w - 1));
        assert(!is_space(s[1]));
        assert(seq![s[0]] + s.drop_first().take(w - 1) =~= s.take(w));
        assert(s.drop_first().skip(w - 1) =~= s.skip(w));
    }
}

/// Splits on whitespace, dropping all separators.
pub(crate) fn split_ws(s: &str) -> (r: Vec<String>)
    ensures
        r.deep_view() =~~= spec_ws_tokens(s@),
{
    let n = s.unicode_len();
    let mut r: Vec<String> = Vec::new();
    let mut i: usize = 0;
    proof {
        assert(s@.skip(0) =~= s@);
        assert(r.deep_view() =~~= Seq::<Seq<char>>::empty());
        assert(Seq::<Seq<char>>::empty() + spec_ws_tokens(s@) =~~= spec_ws_tokens(s@));
    }
    while i < n
        invariant
            n == s@.len(),
            i <= n,
            spec_ws_tokens(s@) =~~= r.deep_view() + spec_ws_tokens(s@.skip(i as int)),
        decreases n - i,
    {
        if is_space_exec(s.get_char(i)) {
            proof {
                assert(s@.skip(i as int)[0] == s@[i as int]);
                assert(s@.skip(i as int).drop_first() =~= s@.skip(i as int + 1));
            }
            i += 1;
        } else {
            let mut word = String::new();
            push_char(&mut word, s.get_char(i));
            let mut j: usize = i + 1;
            while j < n && !is_space_exec(s.get_char(j))
                invariant
                    n == s@.len(),
                    i < j <= n,
                    word@ =~= s@.subrange(i as int, j as int),
                    forall|k: int| i <= k < j ==> !is_space(#[trigger] s@[k]),
                decreases n - j,
            {
                push_char(&mut word, s.get_char(j));
                j += 1;
            }
            let ghost w = word@;
            let ghost before = r.deep_view();
            r.push(word);
            proof {
                let suffix = s@.skip(i as int);
                assert forall|k: int| 0 <= k < j - i implies !is_space(#[trigger] suffix[k]) by {
                    assert(suffix[k] == s@[i + k]);
                }
                if j < n {
                    assert(suffix[j - i] == s@[j as int]);
                }
                lemma_ws_tokens_word(suffix, j - i);
                assert(suffix.take(j - i) =~= w);
                assert(suffix.skip(j - i) =~= s@.skip(j as int));
                assert(spec_ws_tokens(suffix) =~~= seq![w] + spec_ws_tokens(s@.skip(j as int)));
                assert(r.deep_view() =~~= before.push(w));
                assert(before.push(w) =~~= before + seq![w]);
                assert((before + seq![w]) + spec_ws_tokens(s@.skip(j as int)) =~~= before + (
                seq![w] + spec_ws_tokens(s@.skip(j as int))));
                assert(spec_ws_tokens(s@) =~~= r.deep_view() + spec_ws_tokens(s@.skip(j as int)));
            }
            i = j;
        }
    }
    proof {
        assert(s@.skip(n as int) =~= Seq::<char>::empty());
        assert(r.deep_view() + Seq::<Seq<char>>::empty() =~~= r.deep_view());
    }
    r
}

/// Splits on a separator character, one piece more than separators.
pub(crate) fn split_char(s: &str, sep: char) -> (r: Vec<String>)
    ensures
        r.deep_view() =~~= spec_split(s@, sep),
{
    let n = s.unicode_len();
    let mut r: Vec<String> = Vec::new();
    let mut start: usize = 0;
    let mut finished: bool = false;
    proof {
        assert(s@.skip(0) =~= s@);
        assert(r.deep_view() =~~= Seq::<Seq<char>>::empty());
        assert(Seq::<Seq<char>>::empty() + spec_split(s@, sep) =~~= spec_split(s@, sep));
    }
    while !finished
        invariant
            n == s@.len(),
            start <= n,
            !finished ==> spec_split(s@, sep) =~~= r.deep_view() + spec_split(
                s@.skip(start as int),
                sep,
            ),
            finished ==> spec_split(s@, sep) =~~= r.deep_view(),
        decreases n - start + (if finished {
            0int
        } else {
            1int
        }),
    {
        let mut j: usize = start;
        let mut piece = String::new();
        while j < n && s.get_char(j) != sep
            invariant
                n == s@.len(),
                start <= j <= n,
                piece@ =~= s@.subrange(start as int, j as int),
                forall|k: int| start <= k < j ==> s@[k] != sep,
            decreases n - j,
        {
            push_char(&mut piece, s.get_char(j));
            j += 1;
        }
        let ghost before = r.deep_view();
        let ghost t = s@.subrange(start as int, j as int);
        proof {
            let rem = s@.skip(start as int);
            assert forall|k: int| 0 <= k < t.len() implies t[k] != sep by {
                assert(t[k] == s@[start + k]);
            }
            if j == n {
                assert(rem =~= t);
                lemma_split_single(t, sep);
            } else {
                assert(s@[j as int] == sep);
                assert(rem =~= t + seq![sep] + s@.skip(j as int + 1));
                lemma_split_prefix(t, sep, s@.skip(j as int + 1));
            }
        }
        r.push(piece);
        proof {
            assert(r.deep_view() =~~= before.push(t));
            assert(before.push(t) =~~= before + seq![t]);
            if j < n {
                assert((before + seq![t]) + spec_split(s@.skip(j as int + 1), sep) =~~= before + (
                seq![t] + spec_split(s@.skip(j as int + 1), sep)));
            }
        }
        if j == n {
            finished = true;
        } else {
            start = j + 1;
        }
    }
    r
}

// ---------------------------------------------------------------------------
// Case mapping and substitution
// ---------------------------------------------------------------------------
pub open spec fn upper_char(c: char) -> char {
    if 97 <= c as u32 <= 122 {
        ((c as u32 - 32) as u8) as char
    } else {
        c
    }
}

/// ASCII uppercasing, character by character.
pub open spec fn spec_upper(s: Seq<char>) -> Seq<char> {
    s.map_values(|c: char| upper_char(c))
}

fn upper_char_exec(c: char) -> (r: char)
    ensures
        r == upper_char(c),
{
    let n = c as u32;
    if 97 <= n && n <= 122 {
        ((n - 32) as u8) as char
    } else {
        c
    }
}

pub(crate) fn ascii_upper(s: &str) -> (r: String)
    ensures
        r@ == spec_upper(s@),
{
    let n = s.unicode_len();
    let mut r = String::new();
    let mut i: usize = 0;
    while i < n
        invariant
            n == s@.len(),
            i <= n,
            r@ =~= spec_upper(s@.take(i as int)),
        decreases n - i,
    {
        push_char(&mut r, upper_char_exec(s.get_char(i)));
        proof {
            assert(r@ =~= spec_upper(s@.take(i as int + 1)));
        }
        i += 1;
    }
    proof {
        assert(s@.take(n as int) =~= s@);
    }
    r
}

/// The string with every dash turned into a colon.
pub open spec fn dash_to_colon(s: Seq<char>) -> Seq<char> {
    s.map_values(|c: char| if c == '-' { ':' } else { c })
}

pub(crate) fn replace_dashes(s: &str) -> (r: String)
    ensures
        r@ == dash_to_colon(s@),
{
    let n = s.unicode_len();
    let mut r = String::new();
    let mut i: usize = 0;
    while i < n
        invariant
            n == s@.len(),
            i <= n,
            r@ =~= dash_to_colon(s@.take(i as int)),
        decreases n - i,
    {
        let c = s.get_char(i);
        if c == '-' {
            push_char(&mut r, ':');
        } else {
            push_char(&mut r, c);
        }
        proof {
            assert(r@ =~= dash_to_colon(s@.take(i as int + 1)));
        }
        i += 1;
    }
    proof {
        assert(s@.take(n as int) =~= s@);
    }
    r
}

// ---------------------------------------------------------------------------
// Substring search
// ---------------------------------------------------------------------------
/// Whether `sub` occurs contiguously inside `s`.
pub open spec fn contains_seq(s: Seq<char>, sub: Seq<char>) -> bool {
    exists|i: int| 0 <= i && i + sub.len() <= s.len() && #[trigger] s.subrange(i, i + sub.len())
        =~= sub
}

pub(crate) fn str_contains(hay: &str, needle: &str) -> (r: bool)
    ensures
        r == contains_seq(hay@, needle@),
{
    let hn = hay.unicode_len();
    let nn = needle.unicode_len();
    if nn > hn {
        proof {
            assert(!contains_seq(hay@, needle@));
        }
        return false;
    }
    let mut i: usize = 0;
    while i <= hn - nn
        invariant
            hn == hay@.len(),
            nn == needle@.len(),
            nn <= hn,
            i <= hn - nn + 1,
            forall|x: int|
                0 <= x < i ==> #[trigger] hay@.subrange(x, x + needle@.len()) !~= needle@,
        decreases hn - nn + 1 - i,
    {
        let mut j: usize = 0;
        let mut matches_here: bool = true;
        while j < nn && matches_here
            invariant
                hn == hay@.len(),
                nn == needle@.len(),
                i + nn <= hn,
                j <= nn,
                matches_here ==> (forall|k: int| 0 <= k < j ==> hay@[i + k] == needle@[k]),
                !matches_here ==> hay@.subrange(i as int, i + needle@.len()) !~= needle@,
            decreases nn - j + (if matches_here {
                1int
            } else {
                0int
            }),
        {
            if hay.get_char(i + j) != needle.get_char(j) {
                proof {
                    assert(hay@.subrange(i as int, i + needle@.len())[j as int] == hay@[i + j]);
                }
                matches_here = false;
            } else {
                j += 1;
            }
        }
        if matches_here {
            proof {
                assert(hay@.subrange(i as int, i + needle@.len()) =~= needle@);
            }
            return true;
        }
        i += 1;
    }
    proof {
        assert forall|x: int|
            0 <= x && x + needle@.len() <= hay@.len() implies #[trigger] hay@.subrange(
            x,
            x + needle@.len(),
        ) !~= needle@ by {
            assert(x < i);
        }
    }
    false
}

// ---------------------------------------------------------------------------
// Appending characters (the one string operation taken on trust)
// ---------------------------------------------------------------------------
/// Relies on `String::push`: appends exactly the given character.
#[verifier::external_body]
pub(crate) fn push_char(s: &mut String, c: char)
    ensures
        final(s)@ == old(s)@.push(c),
{
    s.push(c);
}

} // verus!
