use vstd::prelude::*;
use vstd::string::StrSliceExecFns;

verus! {

/// Relies on String::push: appends the given character to the end of the string.
pub assume_specification[ String::push ](s: &mut String, c: char)
    ensures
        final(s)@ == old(s)@.push(c),
;

/// Collects a vector of characters into a string.
pub fn chars_to_string(cs: &Vec<char>) -> (s: String)
    ensures
        s@ == cs@,
{
    let mut s = String::new();
    let mut i: usize = 0;
    while i < cs.len()
        invariant
            i <= cs.len(),
            s@ == cs@.take(i as int),
        decreases cs.len() - i,
    {
        s.push(cs[i]);
        i = i + 1;
        proof {
            assert(cs@.take(i as int) =~= cs@.take(i as int - 1).push(cs@[i as int - 1]));
        }
    }
    proof {
        assert(cs@.take(cs@.len() as int) =~= cs@);
    }
    s
}

/// Copies the characters of a string slice into a vector.
pub fn str_to_chars(s: &str) -> (v: Vec<char>)
    ensures
        v@ == s@,
{
    let n = s.unicode_len();
    let mut v: Vec<char> = Vec::new();
    let mut i: usize = 0;
    while i < n
        invariant
            i <= n,
            n == s@.len(),
            v@ == s@.take(i as int),
        decreases n - i,
    {
        v.push(s.get_char(i));
        i = i + 1;
        proof {
            assert(s@.take(i as int) =~= s@.take(i as int - 1).push(s@[i as int - 1]));
        }
    }
    proof {
        assert(s@.take(n as int) =~= s@);
    }
    v
}

/// Index of the first occurrence of `c` in `t`, if any.
pub open spec fn find_char(t: Seq<char>, c: char) -> Option<int>
    decreases t.len(),
{
    if t.len() == 0 {
        None
    } else if t[0] == c {
        Some(0)
    } else {
        match find_char(t.drop_first(), c) {
            None => None,
            Some(i) => Some(i + 1),
        }
    }
}

/// What `find_char` returns: the first index holding `c`, or nothing when `c`
/// does not occur.
pub proof fn lemma_find_char(t: Seq<char>, c: char)
    ensures
        match find_char(t, c) {
            Some(i) => 0 <= i < t.len() && t[i] == c && (forall|j: int| 0 <= j < i ==> t[j] != c),
            None => forall|j: int| 0 <= j < t.len() ==> t[j] != c,
        },
    decreases t.len(),
{
    if t.len() > 0 && t[0] != c {
        let rest = t.drop_first();
        lemma_find_char(rest, c);
        match find_char(rest, c) {
            Some(i) => {
                assert(t[i + 1] == rest[i]);
                assert forall|j: int| 0 <= j < i + 1 implies t[j] != c by {
                    if j >= 1 {
                        assert(rest[j - 1] != c);
                    }
                }
            },
            None => {
                assert forall|j: int| 0 <= j < t.len() implies t[j] != c by {
                    if j >= 1 {
                        assert(rest[j - 1] != c);
                    }
                }
            },
        }
    }
}

/// A first occurrence determines `find_char`.
pub proof fn lemma_find_char_is(t: Seq<char>, c: char, i: int)
    requires
        0 <= i < t.len(),
        t[i] == c,
        forall|j: int| 0 <= j < i ==> t[j] != c,
    ensures
        find_char(t, c) == Some(i),
{
    lemma_find_char(t, c);
    match find_char(t, c) {
        Some(k) => {
            if k < i {
                assert(t[k] == c);
            } else if k > i {
                assert(t[i] != c);
            }
        },
        None => {
            assert(t[i] != c);
        },
    }
}

/// `find_char` on a sequence without `c` is `None`.
pub proof fn lemma_find_char_none(t: Seq<char>, c: char)
    requires
        forall|j: int| 0 <= j < t.len() ==> t[j] != c,
    ensures
        find_char(t, c) == None::<int>,
{
    lemma_find_char(t, c);
    if let Some(k) = find_char(t, c) {
        assert(t[k] != c);
    }
}

/// Scans a vector of characters for the first occurrence of `c`.
pub fn scan_char(t: &Vec<char>, c: char) -> (r: Option<usize>)
    ensures
        match r {
            Some(i) => find_char(t@, c) == Some(i as int),
            None => find_char(t@, c) == None::<int>,
        },
{
    let mut i: usize = 0;
    while i < t.len()
        invariant
            i <= t.len(),
            forall|j: int| 0 <= j < i ==> t@[j] != c,
        decreases t.len() - i,
    {
        if t[i] == c {
            proof {
                lemma_find_char_is(t@, c, i as int);
            }
            return Some(i);
        }
        i = i + 1;
    }
    proof {
        lemma_find_char_none(t@, c);
    }
    None
}

// ------------------------------------------------------------------
// Hexadecimal numerals (the chunk-id fragment of a locator).
// ------------------------------------------------------------------

pub open spec fn is_hex_digit(c: char) -> bool {
    ('0' <= c && c <= '9') || ('A' <= c && c <= 'F') || ('a' <= c && c <= 'f')
}

pub open spec fn hex_val(c: char) -> int {
    if '0' <= c && c <= '9' {
        c as int - '0' as int
    } else if 'A' <= c && c <= 'F' {
        c as int - 'A' as int + 10
    } else {
        c as int - 'a' as int + 10
    }
}

/// The value of a hexadecimal numeral, most significant digit first.
pub open spec fn hex_value(s: Seq<char>) -> int
    decreases s.len(),
{
    if s.len() == 0 {
        0
    } else {
        hex_value(s.drop_last()) * 16 + hex_val(s.last())
    }
}

/// A non-empty all-hex numeral whose value fits in 128 bits.
pub open spec fn valid_hex_u128(s: Seq<char>) -> bool {
    &&& s.len() > 0
    &&& (forall|j: int| 0 <= j < s.len() ==> is_hex_digit(#[trigger] s[j]))
    &&& hex_value(s) <= u128::MAX
}

pub proof fn lemma_hex_value_nonneg(s: Seq<char>)
    requires
        forall|j: int| 0 <= j < s.len() ==> is_hex_digit(#[trigger] s[j]),
    ensures
        hex_value(s) >= 0,
    decreases s.len(),
{
    if s.len() > 0 {
        assert(forall|j: int| 0 <= j < s.drop_last().len() ==> is_hex_digit(
            #[trigger] s.drop_last()[j],
        ));
        lemma_hex_value_nonneg(s.drop_last());
        assert(is_hex_digit(s.last()));
    }
}

/// A longer all-hex numeral is worth at least as much as its prefix.
pub proof fn lemma_hex_value_prefix(s: Seq<char>, i: int)
    requires
        0 <= i <= s.len(),
        forall|j: int| 0 <= j < s.len() ==> is_hex_digit(#[trigger] s[j]),
    ensures
        hex_value(s.take(i)) <= hex_value(s),
    decreases s.len() - i,
{
    if i < s.len() {
        lemma_hex_value_prefix(s, i + 1);
        assert(s.take(i + 1).drop_last() =~= s.take(i));
        assert(s.take(i + 1).last() == s[i]);
        assert(is_hex_digit(s[i]));
        assert(forall|j: int| 0 <= j < s.take(i).len() ==> is_hex_digit(#[trigger] s.take(i)[j]));
        lemma_hex_value_nonneg(s.take(i));
        assert(hex_value(s.take(i + 1)) == hex_value(s.take(i)) * 16 + hex_val(s[i]));
    } else {
        assert(s.take(i) =~= s);
    }
}

/// Classifies a character as a hexadecimal digit and yields its value.
pub fn hex_digit_of(c: char) -> (r: Option<u8>)
    ensures
        r is Some <==> is_hex_digit(c),
        r matches Some(d) ==> d as int == hex_val(c) && d < 16,
{
    if '0' <= c && c <= '9' {
        Some((c as u8) - 48)
    } else if 'A' <= c && c <= 'F' {
        Some((c as u8) - 65 + 10)
    } else if 'a' <= c && c <= 'f' {
        Some((c as u8) - 97 + 10)
    } else {
        None
    }
}

/// Parses an unsigned 128-bit hexadecimal numeral; fails on an empty or
/// malformed numeral and on overflow.
pub fn parse_hex_u128(t: &Vec<char>) -> (r: Option<u128>)
    ensures
        r is Some <==> valid_hex_u128(t@),
        r matches Some(v) ==> v as int == hex_value(t@),
{
    if t.len() == 0 {
        return None;
    }
    let mut acc: u128 = 0;
    let mut i: usize = 0;
    while i < t.len()
        invariant
            i <= t.len(),
            forall|j: int| 0 <= j < i ==> is_hex_digit(#[trigger] t@[j]),
            acc as int == hex_value(t@.take(i as int)),
        decreases t.len() - i,
    {
        let d = match hex_digit_of(t[i]) {
            Some(d) => d,
            None => {
                return None;
            },
        };
        if acc > (u128::MAX - (d as u128)) / 16 {
            proof {
                vstd::arithmetic::div_mod::lemma_fundamental_div_mod(
                    u128::MAX - d as int,
                    16,
                );
                assert(t@.take(i as int + 1).drop_last() =~= t@.take(i as int));
                assert(hex_value(t@.take(i as int + 1)) == acc * 16 + hex_val(t@[i as int]));
                assert(hex_value(t@.take(i as int + 1)) > u128::MAX);
                if forall|j: int| 0 <= j < t@.len() ==> is_hex_digit(#[trigger] t@[j]) {
                    lemma_hex_value_prefix(t@, i as int + 1);
                }
            }
            return None;
        }
        proof {
            vstd::arithmetic::div_mod::lemma_fundamental_div_mod(u128::MAX - d as int, 16);
            assert(acc * 16 + d <= u128::MAX);
        }
        let ghost prev = acc;
        acc = acc * 16 + (d as u128);
        i = i + 1;
        proof {
            assert(t@.take(i as int).drop_last() =~= t@.take(i as int - 1));
            assert(hex_value(t@.take(i as int)) == prev * 16 + hex_val(t@[i as int - 1]));
        }
    }
    proof {
        assert(t@.take(t@.len() as int) =~= t@);
    }
    Some(acc)
}

/// The uppercase hexadecimal digit for a value below 16.
pub open spec fn hex_digit_char(d: int) -> char {
    if d == 0 {
        '0'
    } else if d == 1 {
        '1'
    } else if d == 2 {
        '2'
    } else if d == 3 {
        '3'
    } else if d == 4 {
        '4'
    } else if d == 5 {
        '5'
    } else if d == 6 {
        '6'
    } else if d == 7 {
        '7'
    } else if d == 8 {
        '8'
    } else if d == 9 {
        '9'
    } else if d == 10 {
        'A'
    } else if d == 11 {
        'B'
    } else if d == 12 {
        'C'
    } else if d == 13 {
        'D'
    } else if d == 14 {
        'E'
    } else {
        'F'
    }
}

/// The uppercase hexadecimal numeral of `n`, without leading zeros.
pub open spec fn uhex(n: int) -> Seq<char>
    decreases n,
{
    if n < 16 {
        seq![hex_digit_char(n)]
    } else {
        uhex(n / 16).push(hex_digit_char(n % 16))
    }
}

/// Rendering a value in hexadecimal and reading the numeral back yields the
/// value again; the numeral consists of hexadecimal digits only.
pub proof fn lemma_uhex_value(n: int)
    requires
        n >= 0,
    ensures
        hex_value(uhex(n)) == n,
        uhex(n).len() > 0,
        forall|j: int| 0 <= j < uhex(n).len() ==> is_hex_digit(#[trigger] uhex(n)[j]),
    decreases n,
{
    if n < 16 {
        assert(uhex(n) =~= seq![hex_digit_char(n)]);
        assert(uhex(n).drop_last() =~= Seq::<char>::empty());
        assert(uhex(n).last() == hex_digit_char(n));
        assert(hex_value(uhex(n)) == hex_value(uhex(n).drop_last()) * 16 + hex_val(uhex(n).last()));
        assert(hex_value(Seq::<char>::empty()) == 0);
        assert(hex_val(hex_digit_char(n)) == n);
        assert(is_hex_digit(hex_digit_char(n)));
        assert forall|j: int| 0 <= j < uhex(n).len() implies is_hex_digit(#[trigger] uhex(n)[j]) by {
            assert(uhex(n)[j] == hex_digit_char(n));
        }
    } else {
        lemma_uhex_value(n / 16);
        assert(uhex(n).drop_last() =~= uhex(n / 16));
        assert(uhex(n).last() == hex_digit_char(n % 16));
        assert(hex_val(hex_digit_char(n % 16)) == n % 16);
        assert(is_hex_digit(hex_digit_char(n % 16)));
        assert(hex_value(uhex(n)) == hex_value(uhex(n / 16)) * 16 + n % 16);
        assert(n / 16 * 16 + n % 16 == n) by (nonlinear_arith);
        assert forall|j: int| 0 <= j < uhex(n).len() implies is_hex_digit(#[trigger] uhex(n)[j]) by {
            if j < uhex(n).len() - 1 {
                assert(uhex(n)[j] == uhex(n / 16)[j]);
                assert(is_hex_digit(uhex(n / 16)[j]));
            } else {
                assert(uhex(n)[j] == hex_digit_char(n % 16));
            }
        }
    }
}

fn hex_digit_exec(d: u8) -> (c: char)
    requires
        d < 16,
    ensures
        c == hex_digit_char(d as int),
{
    if d == 0 {
        '0'
    } else if d == 1 {
        '1'
    } else if d == 2 {
        '2'
    } else if d == 3 {
        '3'
    } else if d == 4 {
        '4'
    } else if d == 5 {
        '5'
    } else if d == 6 {
        '6'
    } else if d == 7 {
        '7'
    } else if d == 8 {
        '8'
    } else if d == 9 {
        '9'
    } else if d == 10 {
        'A'
    } else if d == 11 {
        'B'
    } else if d == 12 {
        'C'
    } else if d == 13 {
        'D'
    } else if d == 14 {
        'E'
    } else {
        'F'
    }
}

/// Renders `v` as an uppercase hexadecimal numeral without leading zeros.
pub fn fmt_hex_u128(v: u128) -> (s: Vec<char>)
    ensures
        s@ == uhex(v as int),
    decreases v,
{
    if v < 16 {
        let mut s: Vec<char> = Vec::new();
        s.push(hex_digit_exec(v as u8));
        proof {
            assert(s@ =~= seq![hex_digit_char(v as int)]);
        }
        s
    } else {
        let mut s = fmt_hex_u128(v / 16);
        s.push(hex_digit_exec((v % 16) as u8));
        s
    }
}

// ------------------------------------------------------------------
// Decimal numerals (face indices of a mesh description).
// ------------------------------------------------------------------

pub open spec fn is_dec_digit(c: char) -> bool {
    '0' <= c && c <= '9'
}

pub open spec fn dec_val(c: char) -> int {
    c as int - '0' as int
}

/// The value of a decimal numeral, most significant digit first.
pub open spec fn dec_value(s: Seq<char>) -> int
    decreases s.len(),
{
    if s.len() == 0 {
        0
    } else {
        dec_value(s.drop_last()) * 10 + dec_val(s.last())
    }
}

/// A non-empty all-decimal numeral whose value fits in a usize.
pub open spec fn valid_dec_usize(s: Seq<char>) -> bool {
    &&& s.len() > 0
    &&& (forall|j: int| 0 <= j < s.len() ==> is_dec_digit(#[trigger] s[j]))
    &&& dec_value(s) <= usize::MAX
}

pub proof fn lemma_dec_value_nonneg(s: Seq<char>)
    requires
        forall|j: int| 0 <= j < s.len() ==> is_dec_digit(#[trigger] s[j]),
    ensures
        dec_value(s) >= 0,
    decreases s.len(),
{
    if s.len() > 0 {
        assert(forall|j: int| 0 <= j < s.drop_last().len() ==> is_dec_digit(
            #[trigger] s.drop_last()[j],
        ));
        lemma_dec_value_nonneg(s.drop_last());
    }
}

pub proof fn lemma_dec_value_prefix(s: Seq<char>, i: int)
    requires
        0 <= i <= s.len(),
        forall|j: int| 0 <= j < s.len() ==> is_dec_digit(#[trigger] s[j]),
    ensures
        dec_value(s.take(i)) <= dec_value(s),
    decreases s.len() - i,
{
    if i < s.len() {
        lemma_dec_value_prefix(s, i + 1);
        assert(s.take(i + 1).drop_last() =~= s.take(i));
        assert(s.take(i + 1).last() == s[i]);
        assert(forall|j: int| 0 <= j < s.take(i).len() ==> is_dec_digit(#[trigger] s.take(i)[j]));
        lemma_dec_value_nonneg(s.take(i));
        assert(dec_value(s.take(i + 1)) == dec_value(s.take(i)) * 10 + dec_val(s[i]));
    } else {
        assert(s.take(i) =~= s);
    }
}

/// The decimal digit for a value below 10.
pub open spec fn dec_digit_char(d: int) -> char {
    if d == 0 {
        '0'
    } else if d == 1 {
        '1'
    } else if d == 2 {
        '2'
    } else if d == 3 {
        '3'
    } else if d == 4 {
        '4'
    } else if d == 5 {
        '5'
    } else if d == 6 {
        '6'
    } else if d == 7 {
        '7'
    } else if d == 8 {
        '8'
    } else {
        '9'
    }
}

/// The decimal numeral of `n`, without leading zeros.
pub open spec fn udec(n: int) -> Seq<char>
    decreases n,
{
    if n < 10 {
        seq![dec_digit_char(n)]
    } else {
        udec(n / 10).push(dec_digit_char(n % 10))
    }
}

fn dec_digit_exec(d: u8) -> (c: char)
    requires
        d < 10,
    ensures
        c == dec_digit_char(d as int),
{
    if d == 0 {
        '0'
    } else if d == 1 {
        '1'
    } else if d == 2 {
        '2'
    } else if d == 3 {
        '3'
    } else if d == 4 {
        '4'
    } else if d == 5 {
        '5'
    } else if d == 6 {
        '6'
    } else if d == 7 {
        '7'
    } else if d == 8 {
        '8'
    } else {
        '9'
    }
}

/// Renders `v` as a decimal numeral without leading zeros.
pub fn fmt_dec_usize(v: usize) -> (s: Vec<char>)
    ensures
        s@ == udec(v as int),
    decreases v,
{
    if v < 10 {
        let mut s: Vec<char> = Vec::new();
        s.push(dec_digit_exec(v as u8));
        proof {
            assert(s@ =~= seq![dec_digit_char(v as int)]);
        }
        s
    } else {
        let mut s = fmt_dec_usize(v / 10);
        s.push(dec_digit_exec((v % 10) as u8));
        s
    }
}

/// Parses an unsigned decimal numeral; fails on an empty or malformed numeral
/// and on overflow.
pub fn parse_dec_usize(t: &Vec<char>) -> (r: Option<usize>)
    ensures
        r is Some <==> valid_dec_usize(t@),
        r matches Some(v) ==> v as int == dec_value(t@),
{
    if t.len() == 0 {
        return None;
    }
    let mut acc: usize = 0;
    let mut i: usize = 0;
    while i < t.len()
        invariant
            i <= t.len(),
            forall|j: int| 0 <= j < i ==> is_dec_digit(#[trigger] t@[j]),
            acc as int == dec_value(t@.take(i as int)),
        decreases t.len() - i,
    {
        let c = t[i];
        if !('0' <= c && c <= '9') {
            return None;
        }
        let d: usize = (c as u8 - 48) as usize;
        if acc > (usize::MAX - d) / 10 {
            proof {
                vstd::arithmetic::div_mod::lemma_fundamental_div_mod(
                    usize::MAX - d as int,
                    10,
                );
                assert(t@.take(i as int + 1).drop_last() =~= t@.take(i as int));
                assert(dec_value(t@.take(i as int + 1)) == acc * 10 + dec_val(t@[i as int]));
                assert(dec_value(t@.take(i as int + 1)) > usize::MAX);
                if forall|j: int| 0 <= j < t@.len() ==> is_dec_digit(#[trigger] t@[j]) {
                    lemma_dec_value_prefix(t@, i as int + 1);
                }
            }
            return None;
        }
        proof {
            vstd::arithmetic::div_mod::lemma_fundamental_div_mod(usize::MAX - d as int, 10);
            assert(acc * 10 + d <= usize::MAX);
        }
        let ghost prev = acc;
        acc = acc * 10 + d;
        i = i + 1;
        proof {
            assert(t@.take(i as int).drop_last() =~= t@.take(i as int - 1));
            assert(dec_value(t@.take(i as int)) == prev * 10 + dec_val(t@[i as int - 1]));
        }
    }
    proof {
        assert(t@.take(t@.len() as int) =~= t@);
    }
    Some(acc)
}

/// Copies `v[from..to]` into a fresh vector.
pub fn subvec(v: &Vec<char>, from: usize, to: usize) -> (r: Vec<char>)
    requires
        from <= to <= v@.len(),
    ensures
        r@ == v@.subrange(from as int, to as int),
{
    let mut r: Vec<char> = Vec::new();
    let mut i: usize = from;
    while i < to
        invariant
            from <= i <= to <= v@.len(),
            r@ == v@.subrange(from as int, i as int),
        decreases to - i,
    {
        r.push(v[i]);
        i = i + 1;
        proof {
            assert(v@.subrange(from as int, i as int) =~= v@.subrange(
                from as int,
                i as int - 1,
            ).push(v@[i as int - 1]));
        }
    }
    r
}


} // verus!
