use vstd::prelude::*;
use vstd::std_specs::iter::IteratorSpec;

verus! {

/// The characters of `s`, in order.
pub(crate) fn chars_of(s: &str) -> (r: Vec<char>)
    ensures
        r@ == s@,
{
    broadcast use vstd::string::axiom_spec_iter, vstd::string::next_postcondition;

    let mut v: Vec<char> = Vec::new();
    let mut it = s.chars();
    loop
        invariant
            v@ + it.remaining() == s@,
        ensures
            v@ == s@,
        decreases s@.len() - v@.len(),
    {
        match it.next() {
            Some(c) => {
                v.push(c);
                assert(v@ + it.remaining() =~= s@);
            },
            None => {
                assert(v@ =~= s@);
                break;
            },
        }
    }
    v
}

/// Relies on `String`'s `FromIterator<char>`: the string of these characters, in order.
#[verifier::external_body]
pub(crate) fn string_of(v: &[char]) -> (r: String)
    ensures
        r@ == v@,
{
    v.iter().collect()
}

/// Whether the two strings hold the same characters.
pub(crate) fn same_str(a: &str, b: &str) -> (r: bool)
    ensures
        r == (a@ == b@),
{
    a.to_owned() == b.to_owned()
}

/// The pieces of `s` between occurrences of `sep`; `s` without `sep` is one piece.
pub open spec fn split_by(s: Seq<char>, sep: char) -> Seq<Seq<char>>
    decreases s.len(),
{
    if s.len() == 0 {
        seq![Seq::<char>::empty()]
    } else {
        let r = split_by(s.drop_last(), sep);
        if s.last() == sep {
            r.push(Seq::<char>::empty())
        } else {
            r.update(r.len() - 1, r.last().push(s.last()))
        }
    }
}

/// The character views of a sequence of character vectors.
pub open spec fn views_of(v: Seq<Vec<char>>) -> Seq<Seq<char>> {
    v.map_values(|p: Vec<char>| p@)
}

/// There is always at least one piece.
pub proof fn lemma_split_nonempty(s: Seq<char>, sep: char)
    ensures
        split_by(s, sep).len() >= 1,
    decreases s.len(),
{
    if s.len() > 0 {
        lemma_split_nonempty(s.drop_last(), sep);
    }
}

/// Splits `s` at each `sep`, keeping empty pieces.
pub fn split_chars(s: &Vec<char>, sep: char) -> (r: Vec<Vec<char>>)
    ensures
        views_of(r@) == split_by(s@, sep),
{
    let mut parts: Vec<Vec<char>> = Vec::new();
    let mut cur: Vec<char> = Vec::new();
    let mut i: usize = 0;
    while i < s.len()
        invariant
            i <= s.len(),
            parts@.len() + 1 == split_by(s@.subrange(0, i as int), sep).len(),
            forall|k: int|
                0 <= k < parts@.len() ==> parts@[k]@ == split_by(s@.subrange(0, i as int), sep)[k],
            cur@ == split_by(s@.subrange(0, i as int), sep).last(),
        decreases s.len() - i,
    {
        let ghost prev = split_by(s@.subrange(0, i as int), sep);
        proof {
            lemma_split_nonempty(s@.subrange(0, i as int), sep);
            assert(s@.subrange(0, i + 1).drop_last() =~= s@.subrange(0, i as int));
        }
        let c = s[i];
        if c == sep {
            parts.push(cur);
            cur = Vec::new();
        } else {
            cur.push(c);
        }
        i += 1;
        proof {
            let next = split_by(s@.subrange(0, i as int), sep);
            assert(next.len() == parts@.len() + 1);
            assert forall|k: int| 0 <= k < parts@.len() implies parts@[k]@ == next[k] by {
                if k < prev.len() - 1 {
                    assert(parts@[k]@ == prev[k]);
                }
            }
            assert(cur@ =~= next.last());
        }
    }
    parts.push(cur);
    proof {
        assert(s@.subrange(0, s@.len() as int) =~= s@);
        assert(views_of(parts@) =~= split_by(s@, sep));
    }
    parts
}

/// White space as Unicode defines it, the characters that `str::trim` removes.
pub open spec fn is_ws(c: char) -> bool {
    let u = c as u32;
    ||| 9 <= u <= 13
    ||| u == 32
    ||| u == 0x85
    ||| u == 0xA0
    ||| u == 0x1680
    ||| 0x2000 <= u <= 0x200A
    ||| u == 0x2028
    ||| u == 0x2029
    ||| u == 0x202F
    ||| u == 0x205F
    ||| u == 0x3000
}

/// `s` without its leading white space.
pub open spec fn trim_start(s: Seq<char>) -> Seq<char>
    decreases s.len(),
{
    if s.len() > 0 && is_ws(s[0]) {
        trim_start(s.drop_first())
    } else {
        s
    }
}

/// `s` without its trailing white space.
pub open spec fn trim_end(s: Seq<char>) -> Seq<char>
    decreases s.len(),
{
    if s.len() > 0 && is_ws(s.last()) {
        trim_end(s.drop_last())
    } else {
        s
    }
}

/// `s` without white space at either end.
pub open spec fn trimmed(s: Seq<char>) -> Seq<char> {
    trim_end(trim_start(s))
}

/// Whether `c` is white space.
pub fn is_space(c: char) -> (r: bool)
    ensures
        r == is_ws(c),
{
    let u = c as u32;
    (9 <= u && u <= 13) || u == 32 || u == 0x85 || u == 0xA0 || u == 0x1680 || (0x2000 <= u
        && u <= 0x200A) || u == 0x2028 || u == 0x2029 || u == 0x202F || u == 0x205F || u
        == 0x3000
}

/// `s` with the white space at both ends removed.
pub fn trim_chars(s: &Vec<char>) -> (r: Vec<char>)
    ensures
        r@ == trimmed(s@),
{
    let n = s.len();
    let mut i: usize = 0;
    assert(s@.subrange(0, n as int) =~= s@);
    while i < n && is_space(s[i])
        invariant
            i <= n == s@.len(),
            trim_start(s@) == trim_start(s@.subrange(i as int, n as int)),
        decreases n - i,
    {
        assert(s@.subrange(i as int, n as int).drop_first() =~= s@.subrange(i + 1, n as int));
        i += 1;
    }
    assert(trim_start(s@) == s@.subrange(i as int, n as int));
    let mut j: usize = n;
    while j > i && is_space(s[j - 1])
        invariant
            i <= j <= n == s@.len(),
            trimmed(s@) == trim_end(s@.subrange(i as int, j as int)),
        decreases j,
    {
        assert(s@.subrange(i as int, j as int).drop_last() =~= s@.subrange(i as int, j - 1));
        j -= 1;
    }
    let mut r: Vec<char> = Vec::new();
    let mut k: usize = i;
    while k < j
        invariant
            i <= k <= j <= n == s@.len(),
            r@ == s@.subrange(i as int, k as int),
        decreases j - k,
    {
        r.push(s[k]);
        k += 1;
        assert(r@ =~= s@.subrange(i as int, k as int));
    }
    r
}

/// A decimal digit, `0` to `9`.
pub open spec fn is_digit(c: char) -> bool {
    48 <= c as u32 <= 57
}

/// The value of a decimal digit.
pub open spec fn digit_value(c: char) -> int {
    c as u32 - 48
}

/// Every character of `s` is a decimal digit.
pub open spec fn all_digits(s: Seq<char>) -> bool {
    forall|i: int| 0 <= i < s.len() ==> is_digit(#[trigger] s[i])
}

/// The number that the digits of `s` write in base ten.
pub open spec fn digits_value(s: Seq<char>) -> nat
    decreases s.len(),
{
    if s.len() == 0 {
        0
    } else {
        (digits_value(s.drop_last()) * 10 + digit_value(s.last())) as nat
    }
}

/// A non-empty run of digits, with its value.
pub open spec fn decimal_value(s: Seq<char>) -> Option<nat> {
    if s.len() > 0 && all_digits(s) {
        Some(digits_value(s))
    } else {
        None
    }
}

/// `s` without one leading `+`.
pub open spec fn without_plus(s: Seq<char>) -> Seq<char> {
    if s.len() > 0 && s[0] == '+' {
        s.drop_first()
    } else {
        s
    }
}

/// The `u8` that `s` writes: an optional `+`, then decimal digits, in range.
pub open spec fn u8_of(s: Seq<char>) -> Option<u8> {
    match decimal_value(without_plus(s)) {
        Some(v) => if v <= u8::MAX {
            Some(v as u8)
        } else {
            None
        },
        None => None,
    }
}

/// The `i32` that `s` writes: an optional `+` or `-`, then decimal digits, in range.
pub open spec fn i32_of(s: Seq<char>) -> Option<i32> {
    if s.len() > 0 && s[0] == '-' {
        match decimal_value(s.drop_first()) {
            Some(v) => if v <= 0x8000_0000 {
                Some((-v) as i32)
            } else {
                None
            },
            None => None,
        }
    } else {
        match decimal_value(without_plus(s)) {
            Some(v) => if v <= i32::MAX {
                Some(v as i32)
            } else {
                None
            },
            None => None,
        }
    }
}

/// The value of the digits `s[start..]`, if they are all digits, there is at least
/// one, and the value is at most `limit`.
fn digits_at_most(s: &Vec<char>, start: usize, limit: u64) -> (r: Option<u64>)
    requires
        start <= s@.len(),
        limit <= u32::MAX,
    ensures
        r == (match decimal_value(s@.subrange(start as int, s@.len() as int)) {
            Some(v) => if v <= limit {
                Some(v as u64)
            } else {
                None
            },
            None => None,
        }),
{
    let ghost d = s@.subrange(start as int, s@.len() as int);
    if start == s.len() {
        return None;
    }
    // `v` is the value so far, held at `limit + 1` once it passes `limit`.
    let mut v: u64 = 0;
    let mut i: usize = start;
    while i < s.len()
        invariant
            start <= i <= s@.len(),
            d == s@.subrange(start as int, s@.len() as int),
            limit <= u32::MAX,
            all_digits(s@.subrange(start as int, i as int)),
            v as int == if digits_value(s@.subrange(start as int, i as int)) <= limit {
                digits_value(s@.subrange(start as int, i as int)) as int
            } else {
                limit + 1
            },
        decreases s@.len() - i,
    {
        let c = s[i];
        let u = c as u32;
        if u < 48 || u > 57 {
            assert(!is_digit(d[i - start]));
            return None;
        }
        let ghost pre = s@.subrange(start as int, i as int);
        let ghost next = s@.subrange(start as int, i + 1);
        assert(next.drop_last() =~= pre);
        let w = v * 10 + (u - 48) as u64;
        v = if w > limit {
            limit + 1
        } else {
            w
        };
        i += 1;
        assert(all_digits(next)) by {
            assert forall|k: int| 0 <= k < next.len() implies is_digit(#[trigger] next[k]) by {
                if k < pre.len() {
                    assert(next[k] == pre[k]);
                }
            }
        }
    }
    assert(s@.subrange(start as int, i as int) =~= d);
    if v > limit {
        None
    } else {
        Some(v)
    }
}

/// Reads a `u8` as `str::parse::<u8>` does.
pub fn parse_u8(s: &Vec<char>) -> (r: Option<u8>)
    ensures
        r == u8_of(s@),
{
    let start: usize = if s.len() > 0 && s[0] == '+' {
        1
    } else {
        0
    };
    assert(without_plus(s@) =~= s@.subrange(start as int, s@.len() as int));
    match digits_at_most(s, start, 255) {
        Some(v) => Some(v as u8),
        None => None,
    }
}

/// Reads an `i32` as `str::parse::<i32>` does.
pub fn parse_i32(s: &Vec<char>) -> (r: Option<i32>)
    ensures
        r == i32_of(s@),
{
    if s.len() > 0 && s[0] == '-' {
        assert(s@.drop_first() =~= s@.subrange(1, s@.len() as int));
        match digits_at_most(s, 1, 0x8000_0000) {
            Some(v) => Some((0 - v as i64) as i32),
            None => None,
        }
    } else {
        let start: usize = if s.len() > 0 && s[0] == '+' {
            1
        } else {
            0
        };
        assert(without_plus(s@) =~= s@.subrange(start as int, s@.len() as int));
        match digits_at_most(s, start, 0x7fff_ffff) {
            Some(v) => Some(v as i32),
            None => None,
        }
    }
}

/// The digit character for `d`, below ten.
pub open spec fn digit_char(d: nat) -> char {
    ((d + 48) as u8) as char
}

/// `n` in base ten, without leading zeros.
pub open spec fn decimal_of(n: nat) -> Seq<char>
    decreases n,
{
    if n < 10 {
        seq![digit_char(n)]
    } else {
        decimal_of(n / 10).push(digit_char(n % 10))
    }
}

/// A signed number in base ten, with `-` before a negative one.
pub open spec fn signed_decimal_of(n: int) -> Seq<char> {
    if n < 0 {
        seq!['-'] + decimal_of((-n) as nat)
    } else {
        decimal_of(n as nat)
    }
}

/// Writing `n` in base ten and reading it back gives `n`.
pub proof fn lemma_decimal_round_trip(n: nat)
    ensures
        decimal_of(n).len() > 0,
        all_digits(decimal_of(n)),
        digits_value(decimal_of(n)) == n,
    decreases n,
{
    let s = decimal_of(n);
    if n >= 10 {
        lemma_decimal_round_trip(n / 10);
        assert(s.drop_last() =~= decimal_of(n / 10));
        assert(digit_value(digit_char(n % 10)) == n % 10);
        assert((n / 10) * 10 + n % 10 == n);
        assert(s.last() == digit_char(n % 10));
        assert(digits_value(s) == digits_value(decimal_of(n / 10)) * 10 + digit_value(
            digit_char(n % 10),
        ));
        assert(all_digits(s)) by {
            assert forall|k: int| 0 <= k < s.len() implies is_digit(#[trigger] s[k]) by {
                if k < s.len() - 1 {
                    assert(s[k] == decimal_of(n / 10)[k]);
                }
            }
        }
    } else {
        assert(s.drop_last() =~= Seq::<char>::empty());
        assert(digit_value(digit_char(n)) == n);
        assert(digits_value(s) == digits_value(s.drop_last()) * 10 + digit_value(s.last()));
    }
}

/// Appends the base-ten digits of `n`.
pub fn push_decimal(out: &mut Vec<char>, n: u64)
    ensures
        final(out)@ == old(out)@ + decimal_of(n as nat),
    decreases n,
{
    if n >= 10 {
        push_decimal(out, n / 10);
    }
    let d = (n % 10) as u8;
    out.push((d + 48) as char);
    proof {
        if n >= 10 {
            assert(old(out)@ + decimal_of(n as nat) =~= old(out)@ + decimal_of((n / 10) as nat) + seq![digit_char((n % 10) as nat)]);
        }
    }
}

/// Appends `n` in base ten, with `-` before a negative number.
pub fn push_signed_decimal(out: &mut Vec<char>, n: i32)
    ensures
        final(out)@ == old(out)@ + signed_decimal_of(n as int),
{
    if n < 0 {
        out.push('-');
        push_decimal(out, (0 - n as i64) as u64);
        assert(final(out)@ =~= old(out)@ + signed_decimal_of(n as int));
    } else {
        push_decimal(out, n as u64);
    }
}

/// `sep` does not occur in `s`.
pub open spec fn free_of(s: Seq<char>, sep: char) -> bool {
    forall|i: int| 0 <= i < s.len() ==> s[i] != sep
}

/// Text without `sep` is a single piece.
pub proof fn lemma_split_single(q: Seq<char>, sep: char)
    requires
        free_of(q, sep),
    ensures
        split_by(q, sep) == seq![q],
    decreases q.len(),
{
    if q.len() > 0 {
        lemma_split_single(q.drop_last(), sep);
        assert(q.drop_last().push(q.last()) =~= q);
        assert(split_by(q, sep) =~= seq![q]);
    } else {
        assert(q =~= Seq::<char>::empty());
    }
}

/// Joining a piece without `sep` onto `p` with `sep` adds that piece to `p`'s pieces.
pub proof fn lemma_split_join(p: Seq<char>, q: Seq<char>, sep: char)
    requires
        free_of(q, sep),
    ensures
        split_by(p + seq![sep] + q, sep) == split_by(p, sep).push(q),
    decreases q.len(),
{
    let s = p + seq![sep] + q;
    lemma_split_nonempty(p, sep);
    if q.len() == 0 {
        assert(s.drop_last() =~= p);
        assert(q =~= Seq::<char>::empty());
    } else {
        lemma_split_join(p, q.drop_last(), sep);
        assert(s.drop_last() =~= p + seq![sep] + q.drop_last());
        assert(q.drop_last().push(q.last()) =~= q);
        assert(split_by(s, sep) =~= split_by(p, sep).push(q));
    }
}

/// A number written in base ten reads back as a `u8` when it is one.
pub proof fn lemma_u8_round_trip(n: u8)
    ensures
        free_of(decimal_of(n as nat), ';'),
        trimmed(decimal_of(n as nat)) == decimal_of(n as nat),
        u8_of(decimal_of(n as nat)) == Some(n),
{
    let s = decimal_of(n as nat);
    lemma_decimal_round_trip(n as nat);
    lemma_digits_plain(s);
}

/// A signed number written in base ten reads back as that `i32`.
pub proof fn lemma_i32_round_trip(n: i32)
    ensures
        free_of(signed_decimal_of(n as int), ';'),
        trimmed(signed_decimal_of(n as int)) == signed_decimal_of(n as int),
        i32_of(signed_decimal_of(n as int)) == Some(n),
{
    let s = signed_decimal_of(n as int);
    if n < 0 {
        let d = decimal_of((-n) as nat);
        lemma_decimal_round_trip((-n) as nat);
        lemma_digits_plain(d);
        assert(s.drop_first() =~= d);
        assert(free_of(s, ';')) by {
            assert forall|i: int| 0 <= i < s.len() implies s[i] != ';' by {
                if i > 0 {
                    assert(s[i] == d[i - 1]);
                }
            }
        }
        assert(trim_start(s) == s);
        assert(s.last() == d.last());
        assert(trim_end(s) == s);
    } else {
        lemma_decimal_round_trip(n as nat);
        lemma_digits_plain(s);
    }
}

/// A non-empty run of digits has no `;`, no white space to trim and no sign.
proof fn lemma_digits_plain(s: Seq<char>)
    requires
        s.len() > 0,
        all_digits(s),
    ensures
        free_of(s, ';'),
        trimmed(s) == s,
        without_plus(s) == s,
        s[0] != '-',
{
    assert(is_digit(s[0]));
    assert(is_digit(s[s.len() - 1]));
    assert(trim_start(s) == s);
    assert(trim_end(s) == s);
    assert forall|i: int| 0 <= i < s.len() implies s[i] != ';' by {
        assert(is_digit(s[i]));
    }
}

} // verus!
