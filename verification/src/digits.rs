use vstd::prelude::*;
use vstd::string::*;

verus! {

/// The character that writes one decimal digit.
pub open spec fn digit_char(d: nat) -> char {
    if d == 0 {
        '0'
    } else if d == 1 {
        '1'
    } else if d == 2 {
        '2'
    } else if d == 3 {
        '3'
    } else if d == 4 {
        '4'
    } else if d == 5 {
        '5'
    } else if d == 6 {
        '6'
    } else if d == 7 {
        '7'
    } else if d == 8 {
        '8'
    } else {
        '9'
    }
}

/// The decimal form of a natural number, most significant digit first,
/// with no leading zeros (the number zero is written "0").
pub open spec fn spec_decimal(n: nat) -> Seq<char>
    decreases n,
{
    if n < 10 {
        seq![digit_char(n)]
    } else {
        spec_decimal(n / 10).push(digit_char(n % 10))
    }
}

/// The decimal form of `i`, left-padded with zeros to `width` characters
/// (kept as is when it is already that wide or wider).
pub open spec fn spec_padded(i: nat, width: nat) -> Seq<char> {
    if spec_decimal(i).len() >= width {
        spec_decimal(i)
    } else {
        Seq::new((width - spec_decimal(i).len()) as nat, |j: int| '0') + spec_decimal(i)
    }
}

/// Whether a character is a decimal digit.
pub open spec fn is_digit(c: char) -> bool {
    c == '0' || c == '1' || c == '2' || c == '3' || c == '4' || c == '5' || c == '6' || c == '7'
        || c == '8' || c == '9'
}

/// The value of one decimal digit character.
pub open spec fn digit_val(c: char) -> nat {
    if c == '1' {
        1
    } else if c == '2' {
        2
    } else if c == '3' {
        3
    } else if c == '4' {
        4
    } else if c == '5' {
        5
    } else if c == '6' {
        6
    } else if c == '7' {
        7
    } else if c == '8' {
        8
    } else if c == '9' {
        9
    } else {
        0
    }
}

/// Ten to the power `k`.
pub open spec fn pow10(k: nat) -> nat
    decreases k,
{
    if k == 0 {
        1
    } else {
        10 * pow10((k - 1) as nat)
    }
}

/// The number that a digit string writes, most significant digit first.
pub open spec fn spec_digits_val(s: Seq<char>) -> nat
    decreases s.len(),
{
    if s.len() == 0 {
        0
    } else {
        digit_val(s[0]) * pow10((s.len() - 1) as nat) + spec_digits_val(s.drop_first())
    }
}

/// Whether a segment is a well-formed array index: all digits, and no leading
/// zero unless the index is exactly "0".
pub open spec fn spec_is_index(s: Seq<char>) -> bool {
    &&& s.len() > 0
    &&& forall|i: int| 0 <= i < s.len() ==> is_digit(#[trigger] s[i])
    &&& (s[0] != '0' || s.len() == 1)
}

/// Appending a digit multiplies the written number by ten and adds the digit.
pub proof fn lemma_digits_val_push(t: Seq<char>, c: char)
    ensures
        spec_digits_val(t.push(c)) == spec_digits_val(t) * 10 + digit_val(c),
    decreases t.len(),
{
    if t.len() == 0 {
        assert(t.push(c).drop_first() =~= Seq::<char>::empty());
        assert(spec_digits_val(Seq::<char>::empty()) == 0);
        assert(pow10(0) == 1);
    } else {
        assert(t.push(c).drop_first() =~= t.drop_first().push(c));
        lemma_digits_val_push(t.drop_first(), c);
        let a = digit_val(t[0]);
        let p = pow10((t.len() - 1) as nat);
        assert(t.push(c)[0] == t[0]);
        assert(spec_digits_val(t.push(c)) == a * pow10(t.len() as nat) + spec_digits_val(
            t.drop_first().push(c),
        ));
        assert(spec_digits_val(t) == a * p + spec_digits_val(t.drop_first()));
        assert(pow10(t.len() as nat) == 10 * p);
        assert(a * (10 * p) == (a * p) * 10) by (nonlinear_arith);
    }
}

/// A digit string writes at least what any of its prefixes writes.
pub proof fn lemma_digits_val_prefix(s: Seq<char>, i: int)
    requires
        0 <= i <= s.len(),
    ensures
        spec_digits_val(s.take(i)) <= spec_digits_val(s),
    decreases s.len() - i,
{
    if i == s.len() {
        assert(s.take(i) =~= s);
    } else {
        assert(s.take(i + 1) =~= s.take(i).push(s[i]));
        lemma_digits_val_push(s.take(i), s[i]);
        let v = spec_digits_val(s.take(i));
        assert(v <= v * 10) by (nonlinear_arith);
        lemma_digits_val_prefix(s, i + 1);
    }
}

/// Reads a segment as an array index, as remote pointers do: digits only, no
/// leading zero unless the segment is exactly "0", and nothing too large to
/// count an element.
pub fn parse_index(s: &str) -> (r: Option<usize>)
    ensures
        match r {
            Some(i) => spec_is_index(s@) && i as nat == spec_digits_val(s@),
            None => !spec_is_index(s@) || spec_digits_val(s@) > usize::MAX,
        },
{
    let len = s.unicode_len();
    if len == 0 {
        return None;
    }
    if len > 1 && s.get_char(0) == '0' {
        return None;
    }
    let mut val: usize = 0;
    let mut i: usize = 0;
    proof {
        assert(s@.take(0) =~= Seq::<char>::empty());
    }
    while i < len
        invariant
            i <= len,
            len == s@.len(),
            len > 0,
            s@[0] != '0' || len == 1,
            forall|j: int| 0 <= j < i ==> is_digit(#[trigger] s@[j]),
            val as nat == spec_digits_val(s@.take(i as int)),
        decreases len - i,
    {
        let c = s.get_char(i);
        let d: usize = match c {
            '0' => 0,
            '1' => 1,
            '2' => 2,
            '3' => 3,
            '4' => 4,
            '5' => 5,
            '6' => 6,
            '7' => 7,
            '8' => 8,
            '9' => 9,
            _ => {
                return None;
            },
        };
        proof {
            lemma_digits_val_push(s@.take(i as int), c);
            assert(s@.take(i as int).push(c) =~= s@.take(i + 1 as int));
        }
        if val > usize::MAX / 10 {
            proof {
                assert(val * 10 > usize::MAX) by (nonlinear_arith)
                    requires
                        val > usize::MAX / 10,
                ;
                lemma_digits_val_prefix(s@, i + 1 as int);
            }
            return None;
        }
        proof {
            assert(val * 10 <= usize::MAX) by (nonlinear_arith)
                requires
                    val <= usize::MAX / 10,
            ;
        }
        val = val * 10;
        if d > usize::MAX - val {
            proof {
                lemma_digits_val_prefix(s@, i + 1 as int);
            }
            return None;
        }
        val = val + d;
        i = i + 1;
    }
    proof {
        assert(s@.take(len as int) =~= s@);
    }
    Some(val)
}

/// Strict lexicographic order on character sequences, by code point.
pub open spec fn lex_lt(a: Seq<char>, b: Seq<char>) -> bool
    decreases a.len(),
{
    if b.len() == 0 {
        false
    } else if a.len() == 0 {
        true
    } else if a[0] != b[0] {
        (a[0] as u32) < (b[0] as u32)
    } else {
        lex_lt(a.drop_first(), b.drop_first())
    }
}

/// A decimal form consists of digits and is never empty.
pub proof fn lemma_decimal_digits(n: nat)
    ensures
        spec_decimal(n).len() >= 1,
        forall|i: int| 0 <= i < spec_decimal(n).len() ==> is_digit(#[trigger] spec_decimal(n)[i]),
    decreases n,
{
    if n < 10 {
        assert(is_digit(digit_char(n)));
    } else {
        lemma_decimal_digits(n / 10);
        assert(forall|i: int|
            0 <= i < spec_decimal(n).len() ==> is_digit(#[trigger] spec_decimal(n)[i]));
    }
}

/// Reading a decimal form back gives the number it writes.
pub proof fn lemma_decimal_val(n: nat)
    ensures
        spec_digits_val(spec_decimal(n)) == n,
    decreases n,
{
    if n < 10 {
        let s = spec_decimal(n);
        assert(s == seq![digit_char(n)]);
        assert(s.len() == 1 && s[0] == digit_char(n));
        assert(s.drop_first() =~= Seq::<char>::empty());
        assert(spec_digits_val(Seq::<char>::empty()) == 0);
        assert(pow10(0) == 1);
        assert(spec_digits_val(s) == digit_val(s[0]) * pow10(0) + spec_digits_val(s.drop_first()));
        assert(digit_val(digit_char(n)) * 1 == digit_val(digit_char(n)));
        assert(digit_val(digit_char(n)) == n);
        assert(spec_digits_val(spec_decimal(n)) == n);
    } else {
        lemma_decimal_val(n / 10);
        lemma_digits_val_push(spec_decimal(n / 10), digit_char(n % 10));
        assert(digit_val(digit_char(n % 10)) == n % 10);
        assert(n == (n / 10) * 10 + n % 10) by (nonlinear_arith);
        assert(spec_digits_val(spec_decimal(n)) == n);
    }
}

/// A smaller number never needs a wider decimal form.
pub proof fn lemma_decimal_len_le(i: nat, j: nat)
    requires
        i <= j,
    ensures
        spec_decimal(i).len() <= spec_decimal(j).len(),
    decreases j,
{
    if j < 10 {
    } else if i < 10 {
        lemma_decimal_digits(j / 10);
    } else {
        assert(i / 10 <= j / 10) by (nonlinear_arith)
            requires
                i <= j,
        ;
        lemma_decimal_len_le(i / 10, j / 10);
    }
}

/// A digit string of length L writes a number below ten to the L.
pub proof fn lemma_digits_val_bound(s: Seq<char>)
    requires
        forall|i: int| 0 <= i < s.len() ==> is_digit(#[trigger] s[i]),
    ensures
        spec_digits_val(s) < pow10(s.len()),
    decreases s.len(),
{
    if s.len() == 0 {
    } else {
        assert(forall|i: int|
            0 <= i < s.drop_first().len() ==> is_digit(#[trigger] s.drop_first()[i]));
        lemma_digits_val_bound(s.drop_first());
        let d = digit_val(s[0]);
        let p = pow10((s.len() - 1) as nat);
        assert(d <= 9);
        assert(d * p + spec_digits_val(s.drop_first()) < 10 * p) by (nonlinear_arith)
            requires
                d <= 9,
                spec_digits_val(s.drop_first()) < p,
                p >= 1,
        ;
        assert(pow10(s.len() as nat) == 10 * p);
        assert(p >= 1) by {
            lemma_pow10_pos((s.len() - 1) as nat);
        }
    }
}

/// Ten to any power is positive.
pub proof fn lemma_pow10_pos(k: nat)
    ensures
        pow10(k) >= 1,
    decreases k,
{
    if k > 0 {
        lemma_pow10_pos((k - 1) as nat);
    }
}

/// On equal-length digit strings, lexicographic order is numeric order.
pub proof fn lemma_lex_is_numeric(a: Seq<char>, b: Seq<char>)
    requires
        a.len() == b.len(),
        forall|i: int| 0 <= i < a.len() ==> is_digit(#[trigger] a[i]),
        forall|i: int| 0 <= i < b.len() ==> is_digit(#[trigger] b[i]),
    ensures
        lex_lt(a, b) <==> spec_digits_val(a) < spec_digits_val(b),
    decreases a.len(),
{
    if a.len() == 0 {
    } else if a[0] == b[0] {
        assert(forall|i: int|
            0 <= i < a.drop_first().len() ==> is_digit(#[trigger] a.drop_first()[i]));
        assert(forall|i: int|
            0 <= i < b.drop_first().len() ==> is_digit(#[trigger] b.drop_first()[i]));
        lemma_lex_is_numeric(a.drop_first(), b.drop_first());
    } else {
        let da = digit_val(a[0]);
        let db = digit_val(b[0]);
        let p = pow10((a.len() - 1) as nat);
        assert(forall|i: int|
            0 <= i < a.drop_first().len() ==> is_digit(#[trigger] a.drop_first()[i]));
        assert(forall|i: int|
            0 <= i < b.drop_first().len() ==> is_digit(#[trigger] b.drop_first()[i]));
        lemma_digits_val_bound(a.drop_first());
        lemma_digits_val_bound(b.drop_first());
        lemma_pow10_pos((a.len() - 1) as nat);
        assert(da != db);
        assert((a[0] as u32) < (b[0] as u32) <==> da < db);
        if da < db {
            assert(da * p + spec_digits_val(a.drop_first()) < db * p + spec_digits_val(
                b.drop_first(),
            )) by (nonlinear_arith)
                requires
                    da < db,
                    spec_digits_val(a.drop_first()) < p,
                    p >= 1,
            ;
        } else {
            assert(db * p + spec_digits_val(b.drop_first()) < da * p + spec_digits_val(
                a.drop_first(),
            )) by (nonlinear_arith)
                requires
                    db < da,
                    spec_digits_val(b.drop_first()) < p,
                    p >= 1,
            ;
        }
    }
}

/// Leading zeros change nothing about the number a digit string writes.
pub proof fn lemma_zeros_prefix_val(k: nat, s: Seq<char>)
    ensures
        spec_digits_val(Seq::new(k, |j: int| '0') + s) == spec_digits_val(s),
    decreases k,
{
    let z = Seq::new(k, |j: int| '0') + s;
    if k == 0 {
        assert(z =~= s);
    } else {
        assert(z.drop_first() =~= Seq::new((k - 1) as nat, |j: int| '0') + s);
        lemma_zeros_prefix_val((k - 1) as nat, s);
        assert(z[0] == '0');
        assert(digit_val('0') == 0);
    }
}

/// What holds of a left-padded index below its array's length: it is all
/// digits, exactly as wide as the length's decimal form, and reads back as
/// the index itself.
pub proof fn lemma_padded_key_facts(i: nat, n: nat)
    requires
        i < n,
    ensures
        spec_padded(i, spec_decimal(n).len()).len() == spec_decimal(n).len(),
        forall|j: int|
            0 <= j < spec_padded(i, spec_decimal(n).len()).len() ==> is_digit(
                #[trigger] spec_padded(i, spec_decimal(n).len())[j],
            ),
        spec_digits_val(spec_padded(i, spec_decimal(n).len())) == i,
{
    let w = spec_decimal(n).len();
    let d = spec_decimal(i);
    lemma_decimal_digits(i);
    lemma_decimal_val(i);
    lemma_decimal_len_le(i, n);
    if d.len() >= w {
        assert(spec_padded(i, w) == d);
    } else {
        let z = Seq::new((w - d.len()) as nat, |j: int| '0');
        lemma_zeros_prefix_val((w - d.len()) as nat, d);
        assert(spec_padded(i, w) == z + d);
        assert((z + d).len() == w);
        assert(forall|j: int| 0 <= j < z.len() ==> (z + d)[j] == '0');
        assert(forall|j: int| z.len() <= j < w ==> (z + d)[j] == d[j - z.len()]);
        assert(is_digit('0'));
    }
}

/// The character of one hexadecimal digit, in lower case.
pub open spec fn hex_char(d: nat) -> char {
    if d < 10 {
        digit_char(d)
    } else if d == 10 {
        'a'
    } else if d == 11 {
        'b'
    } else if d == 12 {
        'c'
    } else if d == 13 {
        'd'
    } else if d == 14 {
        'e'
    } else {
        'f'
    }
}

/// Appends the character of one hexadecimal digit.
pub fn push_hex(s: &mut String, d: u32)
    requires
        d < 16,
    ensures
        final(s)@ == old(s)@.push(hex_char(d as nat)),
{
    let piece: &str = match d {
        0 => "0",
        1 => "1",
        2 => "2",
        3 => "3",
        4 => "4",
        5 => "5",
        6 => "6",
        7 => "7",
        8 => "8",
        9 => "9",
        10 => "a",
        11 => "b",
        12 => "c",
        13 => "d",
        14 => "e",
        _ => "f",
    };
    proof {
        reveal_strlit("0");
        reveal_strlit("1");
        reveal_strlit("2");
        reveal_strlit("3");
        reveal_strlit("4");
        reveal_strlit("5");
        reveal_strlit("6");
        reveal_strlit("7");
        reveal_strlit("8");
        reveal_strlit("9");
        reveal_strlit("a");
        reveal_strlit("b");
        reveal_strlit("c");
        reveal_strlit("d");
        reveal_strlit("e");
        reveal_strlit("f");
    }
    s.append(piece);
    proof {
        assert(s@ =~= old(s)@.push(hex_char(d as nat)));
    }
}

/// Appends the character of one decimal digit.
fn push_digit(s: &mut String, d: usize)
    requires
        d < 10,
    ensures
        final(s)@ == old(s)@.push(digit_char(d as nat)),
{
    let piece: &str = match d {
        0 => "0",
        1 => "1",
        2 => "2",
        3 => "3",
        4 => "4",
        5 => "5",
        6 => "6",
        7 => "7",
        8 => "8",
        _ => "9",
    };
    proof {
        reveal_strlit("0");
        reveal_strlit("1");
        reveal_strlit("2");
        reveal_strlit("3");
        reveal_strlit("4");
        reveal_strlit("5");
        reveal_strlit("6");
        reveal_strlit("7");
        reveal_strlit("8");
        reveal_strlit("9");
    }
    s.append(piece);
    proof {
        assert(s@ =~= old(s)@.push(digit_char(d as nat)));
    }
}

/// Writes a number in decimal.
pub fn usize_to_string(n: usize) -> (s: String)
    ensures
        s@ == spec_decimal(n as nat),
    decreases n,
{
    if n < 10 {
        let mut s = String::new();
        push_digit(&mut s, n);
        proof {
            assert(s@ =~= spec_decimal(n as nat));
        }
        s
    } else {
        let mut s = usize_to_string(n / 10);
        push_digit(&mut s, n % 10);
        s
    }
}

/// Writes `i` in decimal, left-padded with zeros to `width` characters.
pub fn padded_key(i: usize, width: usize) -> (s: String)
    ensures
        s@ == spec_padded(i as nat, width as nat),
{
    let digits = usize_to_string(i);
    let len = digits.as_str().unicode_len();
    let pad: usize = if width > len {
        width - len
    } else {
        0
    };
    let mut s = String::new();
    let mut k: usize = 0;
    proof {
        reveal_strlit("0");
    }
    while k < pad
        invariant
            k <= pad,
            s@ =~= Seq::new(k as nat, |j: int| '0'),
            ("0")@ =~= seq!['0'],
        decreases pad - k,
    {
        s.append("0");
        k = k + 1;
        proof {
            assert(s@ =~= Seq::new(k as nat, |j: int| '0'));
        }
    }
    s.append(digits.as_str());
    proof {
        assert(s@ =~= spec_padded(i as nat, width as nat));
    }
    s
}

} // verus!
