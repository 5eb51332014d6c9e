//! Decimal numerals and the small amount of text handling the wire formats need.
use crate::integer::fits_i64;
use vstd::prelude::*;

verus! {

// --- Writing numbers ---

/// The character of one decimal digit.
pub open spec fn digit_char(d: nat) -> char {
    ((48 + d) as u8) as char
}

/// The shortest decimal numeral of `n`.
pub open spec fn decimal(n: nat) -> Seq<char>
    decreases n,
{
    if n < 10 {
        seq![digit_char(n)]
    } else {
        decimal(n / 10).push(digit_char(n % 10))
    }
}

/// The decimal numeral of `n`, led by `-` when `n` is negative.
pub open spec fn signed_decimal(n: int) -> Seq<char> {
    if n < 0 {
        seq!['-'] + decimal((-n) as nat)
    } else {
        decimal(n as nat)
    }
}

/// `s` with zeros put in front until it is at least `width` long.
pub open spec fn zero_padded(s: Seq<char>, width: int) -> Seq<char> {
    if s.len() >= width {
        s
    } else {
        Seq::new((width - s.len()) as nat, |i: int| '0') + s
    }
}

/// The decimal numeral of `n` padded with zeros to `width`, the sign counted and kept in front.
pub open spec fn padded_decimal(n: int, width: int) -> Seq<char> {
    if n < 0 {
        seq!['-'] + zero_padded(decimal((-n) as nat), width - 1)
    } else {
        zero_padded(decimal(n as nat), width)
    }
}

fn digit_text(d: u64) -> (s: &'static str)
    requires
        d < 10,
    ensures
        s@ == seq![digit_char(d as nat)],
{
    proof {
        reveal_strlit("0");
        reveal_strlit("1");
        reveal_strlit("2");
        reveal_strlit("3");
        reveal_strlit("4");
        reveal_strlit("5");
        reveal_strlit("6");
        reveal_strlit("7");
        reveal_strlit("8");
        reveal_strlit("9");
    }
    match d {
        0 => "0",
        1 => "1",
        2 => "2",
        3 => "3",
        4 => "4",
        5 => "5",
        6 => "6",
        7 => "7",
        8 => "8",
        _ => "9",
    }
}

/// Append the decimal numeral of `n`.
pub fn push_decimal(out: &mut String, n: u64)
    ensures
        final(out)@ == old(out)@ + decimal(n as nat),
    decreases n,
{
    if n >= 10 {
        push_decimal(out, n / 10);
    }
    out.append(digit_text(n % 10));
}

fn magnitude(n: i64) -> (m: u64)
    ensures
        n < 0 ==> m == -n,
        n >= 0 ==> m == n,
{
    if n < 0 {
        let flipped: i64 = -(n + 1);
        flipped as u64 + 1
    } else {
        n as u64
    }
}

/// Append the decimal numeral of `n` with its sign.
pub fn push_signed(out: &mut String, n: i64)
    ensures
        final(out)@ == old(out)@ + signed_decimal(n as int),
{
    proof {
        reveal_strlit("-");
    }
    if n < 0 {
        out.append("-");
    }
    push_decimal(out, magnitude(n));
}

proof fn lemma_decimal_len(n: nat)
    ensures
        1 <= decimal(n).len(),
        n > 0 ==> decimal(n).len() <= n,
        n == 0 ==> decimal(n).len() == 1,
    decreases n,
{
    if n >= 10 {
        lemma_decimal_len(n / 10);
    }
}

fn decimal_len(n: u64) -> (len: u64)
    ensures
        len == decimal(n as nat).len(),
{
    let mut rest: u64 = n;
    let mut len: u64 = 1;
    proof {
        lemma_decimal_len(n as nat);
    }
    while rest >= 10
        invariant
            decimal(n as nat).len() <= n || n == 0 && decimal(n as nat).len() == 1,
            decimal(n as nat).len() + 1 == decimal(rest as nat).len() + len,
        decreases rest,
    {
        proof {
            lemma_decimal_len((rest / 10) as nat);
        }
        rest = rest / 10;
        len = len + 1;
    }
    len
}

fn push_zero_padded(out: &mut String, n: u64, width: u64)
    ensures
        final(out)@ == old(out)@ + zero_padded(decimal(n as nat), width as int),
{
    let len: u64 = decimal_len(n);
    let missing: u64 = if len < width { width - len } else { 0 };
    let mut done: u64 = 0;
    proof {
        reveal_strlit("0");
    }
    while done < missing
        invariant
            done <= missing,
            "0"@ =~= seq!['0'],
            out@ =~= old(out)@ + Seq::new(done as nat, |i: int| '0'),
        decreases missing - done,
    {
        out.append("0");
        done = done + 1;
    }
    push_decimal(out, n);
    assert(out@ =~= old(out)@ + zero_padded(decimal(n as nat), width as int));
}

/// Append the decimal numeral of `n` padded with zeros to `width`.
pub fn push_padded(out: &mut String, n: i64, width: u64)
    requires
        width >= 1,
    ensures
        final(out)@ == old(out)@ + padded_decimal(n as int, width as int),
{
    proof {
        reveal_strlit("-");
    }
    if n < 0 {
        out.append("-");
        push_zero_padded(out, magnitude(n), width - 1);
    } else {
        push_zero_padded(out, magnitude(n), width);
    }
    assert(out@ =~= old(out)@ + padded_decimal(n as int, width as int));
}

// --- Reading numbers ---

/// Whether `c` is an ASCII decimal digit.
pub open spec fn is_digit(c: char) -> bool {
    '0' <= c <= '9'
}

/// The number one decimal digit stands for.
pub open spec fn digit_value(c: char) -> nat {
    (c as int - '0' as int) as nat
}

/// Whether `s` is one or more decimal digits and nothing else.
pub open spec fn is_numeral(s: Seq<char>) -> bool {
    s.len() > 0 && forall|i: int| 0 <= i < s.len() ==> is_digit(#[trigger] s[i])
}

/// The number a run of decimal digits stands for.
pub open spec fn numeral_value(s: Seq<char>) -> nat
    decreases s.len(),
{
    if s.len() == 0 {
        0
    } else {
        numeral_value(s.drop_last()) * 10 + digit_value(s.last())
    }
}

/// Read an unsigned 64-bit number: decimal digits, optionally led by `+`.
pub open spec fn unsigned_value(s: Seq<char>) -> Option<u64> {
    let body = if s.len() > 0 && s[0] == '+' {
        s.skip(1)
    } else {
        s
    };
    if is_numeral(body) && numeral_value(body) <= u64::MAX {
        Some(numeral_value(body) as u64)
    } else {
        None
    }
}

/// Read a signed 64-bit number: decimal digits, optionally led by `+` or `-`.
pub open spec fn signed_value(s: Seq<char>) -> Option<i64> {
    let negative = s.len() > 0 && s[0] == '-';
    let body = if s.len() > 0 && (s[0] == '+' || s[0] == '-') {
        s.skip(1)
    } else {
        s
    };
    let n = if negative {
        -numeral_value(body)
    } else {
        numeral_value(body) as int
    };
    if is_numeral(body) && fits_i64(n) {
        Some(n as i64)
    } else {
        None
    }
}

proof fn lemma_prefix_value(s: Seq<char>, i: int)
    requires
        0 <= i <= s.len(),
    ensures
        numeral_value(s.take(i)) <= numeral_value(s),
    decreases s.len() - i,
{
    if i == s.len() {
        assert(s.take(i) =~= s);
    } else {
        lemma_prefix_value(s, i + 1);
        assert(s.take(i + 1).drop_last() =~= s.take(i));
    }
}

/// The value of the digits `chars[from..]`; `None` when they are no numeral or exceed `limit`.
fn read_digits(chars: &Vec<char>, from: usize, limit: u64) -> (r: Option<u64>)
    requires
        from <= chars@.len(),
    ensures
        r == (if is_numeral(chars@.skip(from as int)) && numeral_value(chars@.skip(from as int))
            <= limit {
            Some(numeral_value(chars@.skip(from as int)) as u64)
        } else {
            None
        }),
{
    let ghost body = chars@.skip(from as int);
    if from == chars.len() {
        return None;
    }
    let mut value: u64 = 0;
    let mut i: usize = from;
    while i < chars.len()
        invariant
            from <= i <= chars@.len(),
            from < chars@.len(),
            body == chars@.skip(from as int),
            value <= limit,
            forall|k: int| 0 <= k < i - from ==> is_digit(#[trigger] body[k]),
            value == numeral_value(body.take(i - from)),
        decreases chars@.len() - i,
    {
        let c: char = chars[i];
        assert(body[i - from] == c);
        if c < '0' || c > '9' {
            return None;
        }
        let next: u128 = value as u128 * 10 + (c as u8 - 48) as u128;
        proof {
            assert(body.take(i - from + 1).drop_last() =~= body.take(i - from));
            lemma_prefix_value(body, i - from + 1);
        }
        if next > limit as u128 {
            return None;
        }
        value = next as u64;
        i = i + 1;
    }
    assert(body.take(i - from) =~= body);
    Some(value)
}

/// Read an unsigned 64-bit number.
pub fn read_unsigned(chars: &Vec<char>) -> (r: Option<u64>)
    ensures
        r == unsigned_value(chars@),
{
    assert(chars@.skip(0) =~= chars@);
    let from: usize = if chars.len() > 0 && chars[0] == '+' { 1 } else { 0 };
    read_digits(chars, from, u64::MAX)
}

/// Read a signed 64-bit number.
pub fn read_signed(chars: &Vec<char>) -> (r: Option<i64>)
    ensures
        r == signed_value(chars@),
{
    assert(chars@.skip(0) =~= chars@);
    if chars.len() > 0 && chars[0] == '-' {
        match read_digits(chars, 1, 0x8000_0000_0000_0000) {
            Some(m) => if m == 0x8000_0000_0000_0000 {
                Some(i64::MIN)
            } else {
                Some(-(m as i64))
            },
            None => None,
        }
    } else {
        let from: usize = if chars.len() > 0 && chars[0] == '+' { 1 } else { 0 };
        match read_digits(chars, from, 0x7fff_ffff_ffff_ffff) {
            Some(m) => Some(m as i64),
            None => None,
        }
    }
}

// --- Taking text apart ---

/// The characters of `s`.
pub fn chars_of(s: &str) -> (chars: Vec<char>)
    ensures
        chars@ == s@,
{
    let mut chars: Vec<char> = Vec::new();
    for c in it: s.chars()
        invariant
            it.seq() == s@,
            chars@ == s@.take(it.index() as int),
    {
        chars.push(c);
    }
    chars
}

/// Whether `c` has the Unicode property `White_Space`.
pub open spec fn is_whitespace(c: char) -> bool {
    let n = c as u32;
    ||| 0x9 <= n <= 0xd
    ||| n == 0x20
    ||| n == 0x85
    ||| n == 0xa0
    ||| n == 0x1680
    ||| 0x2000 <= n <= 0x200a
    ||| n == 0x2028
    ||| n == 0x2029
    ||| n == 0x202f
    ||| n == 0x205f
    ||| n == 0x3000
}

fn whitespace(c: char) -> (r: bool)
    ensures
        r == is_whitespace(c),
{
    let n: u32 = c as u32;
    0x9 <= n && n <= 0xd || n == 0x20 || n == 0x85 || n == 0xa0 || n == 0x1680 || 0x2000 <= n && n
        <= 0x200a || n == 0x2028 || n == 0x2029 || n == 0x202f || n == 0x205f || n == 0x3000
}

/// `s` without its leading white space.
pub open spec fn trim_start(s: Seq<char>) -> Seq<char>
    decreases s.len(),
{
    if s.len() > 0 && is_whitespace(s[0]) {
        trim_start(s.skip(1))
    } else {
        s
    }
}

/// `s` without its trailing white space.
pub open spec fn trim_end(s: Seq<char>) -> Seq<char>
    decreases s.len(),
{
    if s.len() > 0 && is_whitespace(s.last()) {
        trim_end(s.drop_last())
    } else {
        s
    }
}

/// `s` without its leading and trailing white space.
pub open spec fn trimmed(s: Seq<char>) -> Seq<char> {
    trim_end(trim_start(s))
}

/// Drop leading and trailing white space.
pub fn trim(chars: &Vec<char>) -> (r: Vec<char>)
    ensures
        r@ == trimmed(chars@),
{
    let mut from: usize = 0;
    assert(chars@.skip(0) =~= chars@);
    while from < chars.len() && whitespace(chars[from])
        invariant
            from <= chars@.len(),
            trim_start(chars@.skip(from as int)) == trim_start(chars@),
        decreases chars@.len() - from,
    {
        assert(chars@.skip(from as int).skip(1) =~= chars@.skip(from + 1));
        from = from + 1;
    }
    let ghost rest = chars@.skip(from as int);
    let mut to: usize = chars.len();
    assert(chars@.subrange(from as int, to as int) =~= rest);
    while to > from && whitespace(chars[to - 1])
        invariant
            from <= to <= chars@.len(),
            trim_end(chars@.subrange(from as int, to as int)) == trim_end(rest),
        decreases to,
    {
        assert(chars@.subrange(from as int, to as int).drop_last() =~= chars@.subrange(
            from as int,
            to - 1,
        ));
        to = to - 1;
    }
    let mut kept: Vec<char> = Vec::new();
    let mut i: usize = from;
    while i < to
        invariant
            from <= i <= to <= chars@.len(),
            kept@ =~= chars@.subrange(from as int, i as int),
        decreases to - i,
    {
        kept.push(chars[i]);
        i = i + 1;
    }
    kept
}

/// The pieces of `s` between the occurrences of `sep`, the empty ones too.
pub open spec fn pieces(s: Seq<char>, sep: char) -> Seq<Seq<char>>
    decreases s.len(),
{
    if s.len() == 0 {
        seq![Seq::empty()]
    } else {
        let before = pieces(s.drop_last(), sep);
        if s.last() == sep {
            before.push(Seq::empty())
        } else {
            before.drop_last().push(before.last().push(s.last()))
        }
    }
}

/// Cut `chars` at every `sep`.
pub fn split(chars: &Vec<char>, sep: char) -> (r: Vec<Vec<char>>)
    ensures
        r@.map_values(|piece: Vec<char>| piece@) == pieces(chars@, sep),
{
    let ghost view = |piece: Vec<char>| piece@;
    let mut done: Vec<Vec<char>> = Vec::new();
    let mut current: Vec<char> = Vec::new();
    let mut i: usize = 0;
    assert(done@.map_values(view).push(current@) =~= pieces(chars@.take(0), sep));
    while i < chars.len()
        invariant
            i <= chars@.len(),
            view == (|piece: Vec<char>| piece@),
            done@.map_values(view).push(current@) == pieces(chars@.take(i as int), sep),
        decreases chars@.len() - i,
    {
        let c: char = chars[i];
        let ghost before = done@.map_values(view);
        assert(chars@.take(i + 1).drop_last() =~= chars@.take(i as int));
        assert(before.push(current@).drop_last() =~= before);
        if c == sep {
            done.push(current);
            current = Vec::new();
            assert(done@.map_values(view) =~= pieces(chars@.take(i as int), sep));
        } else {
            current.push(c);
        }
        i = i + 1;
    }
    assert(chars@.take(i as int) =~= chars@);
    let ghost before = done@.map_values(view);
    let ghost last = current@;
    done.push(current);
    assert(done@.map_values(view) =~= before.push(last));
    done
}

// --- Laws of reading and writing ---

proof fn lemma_push_digit(s: Seq<char>, d: nat)
    requires
        d < 10,
    ensures
        numeral_value(s.push(digit_char(d))) == numeral_value(s) * 10 + d,
        is_digit(digit_char(d)),
{
    assert(s.push(digit_char(d)).drop_last() =~= s);
}

proof fn lemma_decimal_value(n: nat)
    ensures
        is_numeral(decimal(n)),
        numeral_value(decimal(n)) == n,
    decreases n,
{
    if n < 10 {
        assert(decimal(n) =~= Seq::empty().push(digit_char(n)));
        lemma_push_digit(Seq::empty(), n);
    } else {
        lemma_decimal_value(n / 10);
        lemma_push_digit(decimal(n / 10), n % 10);
    }
}

proof fn lemma_leading_zeros(zeros: nat, s: Seq<char>)
    requires
        is_numeral(s),
    ensures
        is_numeral(Seq::new(zeros, |i: int| '0') + s),
        numeral_value(Seq::new(zeros, |i: int| '0') + s) == numeral_value(s),
{
    lemma_leading_zeros_value(zeros, s);
}

proof fn lemma_leading_zeros_value(zeros: nat, s: Seq<char>)
    ensures
        numeral_value(Seq::new(zeros, |i: int| '0') + s) == numeral_value(s),
    decreases zeros, s.len(),
{
    let z = Seq::new(zeros, |i: int| '0');
    if s.len() > 0 {
        lemma_leading_zeros_value(zeros, s.drop_last());
        assert((z + s).drop_last() =~= z + s.drop_last());
    } else if zeros > 0 {
        assert((z + s).drop_last() =~= Seq::new((zeros - 1) as nat, |i: int| '0') + s);
        lemma_leading_zeros_value((zeros - 1) as nat, s);
    }
}

/// Reading a written number gives it back: padded with zeros or not, signed or unsigned.
pub proof fn law_numbers_read_back(n: nat, width: int)
    ensures
        n <= u64::MAX ==> unsigned_value(padded_decimal(n as int, width)) == Some(n as u64),
        n <= i64::MAX ==> signed_value(padded_decimal(n as int, width)) == Some(n as i64),
        unsigned_value(decimal(n)) == unsigned_value(padded_decimal(n as int, width)),
        is_numeral(padded_decimal(n as int, width)),
{
    let text = padded_decimal(n as int, width);
    lemma_decimal_value(n);
    if decimal(n).len() < width {
        lemma_leading_zeros((width - decimal(n).len()) as nat, decimal(n));
    }
    assert(is_digit(text[0]));
    assert(is_digit(decimal(n)[0]));
}

/// Text without `sep` is one piece.
pub proof fn law_text_without_separator_is_one_piece(s: Seq<char>, sep: char)
    requires
        !s.contains(sep),
    ensures
        pieces(s, sep) == seq![s],
    decreases s.len(),
{
    if s.len() > 0 {
        let t = s.drop_last();
        assert(s[s.len() - 1] != sep);
        assert forall|i: int| 0 <= i < t.len() implies t[i] != sep by {
            assert(s[i] == t[i]);
        }
        law_text_without_separator_is_one_piece(t, sep);
        assert(t.push(s.last()) =~= s);
        assert(pieces(s, sep) =~= seq![s]);
    } else {
        assert(s =~= Seq::empty());
    }
}

proof fn lemma_pieces_nonempty(s: Seq<char>, sep: char)
    ensures
        pieces(s, sep).len() > 0,
    decreases s.len(),
{
    if s.len() > 0 {
        lemma_pieces_nonempty(s.drop_last(), sep);
    }
}

/// Text joined by `sep` falls into the pieces of its two parts.
pub proof fn law_separator_cuts(left: Seq<char>, right: Seq<char>, sep: char)
    ensures
        pieces(left.push(sep) + right, sep) == pieces(left, sep) + pieces(right, sep),
    decreases right.len(),
{
    let whole = left.push(sep) + right;
    if right.len() == 0 {
        assert(whole =~= left.push(sep));
        assert(whole.drop_last() =~= left);
        assert(pieces(left, sep).push(Seq::empty()) =~= pieces(left, sep) + seq![
            Seq::<char>::empty(),
        ]);
    } else {
        assert(whole.drop_last() =~= left.push(sep) + right.drop_last());
        law_separator_cuts(left, right.drop_last(), sep);
        lemma_pieces_nonempty(right.drop_last(), sep);
        assert(pieces(whole, sep) =~= pieces(left, sep) + pieces(right, sep));
    }
}

/// The recursive value of a run of digits is the positional one: ten times what came before, plus
/// the digit.
proof fn lemma_positional_value(s: Seq<char>, place: spec_fn(int, char) -> int)
    requires
        forall|v: int, c: char| #[trigger] place(v, c) == 10 * v + (c as int - 48),
        forall|i: int| 0 <= i < s.len() ==> '0' <= #[trigger] s[i] <= '9',
    ensures
        numeral_value(s) == s.fold_left(0, place),
    decreases s.len(),
{
    if s.len() > 0 {
        let t = s.drop_last();
        assert forall|i: int| 0 <= i < t.len() implies '0' <= #[trigger] t[i] <= '9' by {
            assert(t[i] == s[i]);
        }
        lemma_positional_value(t, place);
        assert('0' <= s[s.len() - 1] <= '9');
    }
}

/// A numeral is one or more digits from `0` to `9`, stands for its number by position, and has no
/// needless zero in front.
pub proof fn law_numeral_is_positional(n: nat, place: spec_fn(int, char) -> int)
    requires
        forall|v: int, c: char| #[trigger] place(v, c) == 10 * v + (c as int - 48),
    ensures
        decimal(n).len() > 0,
        forall|i: int| 0 <= i < decimal(n).len() ==> '0' <= #[trigger] decimal(n)[i] <= '9',
        decimal(n).fold_left(0, place) == n,
        n > 0 ==> decimal(n)[0] != '0',
        n == 0 ==> decimal(n).len() == 1,
    decreases n,
{
    lemma_decimal_value(n);
    assert forall|i: int| 0 <= i < decimal(n).len() implies '0' <= #[trigger] decimal(n)[i]
        <= '9' by {
        assert(is_digit(decimal(n)[i]));
    }
    lemma_positional_value(decimal(n), place);
    if n >= 10 {
        law_numeral_is_positional(n / 10, place);
        lemma_decimal_len(n / 10);
        assert(decimal(n)[0] == decimal(n / 10)[0]);
    }
}

/// A negative number is a dash and the numeral of its size; any other is its numeral.
pub proof fn law_sign_goes_in_front(n: int)
    ensures
        n < 0 ==> signed_decimal(n) == seq!['-'] + decimal((-n) as nat),
        n >= 0 ==> signed_decimal(n) == decimal(n as nat),
{
}

/// Padding puts zeros in front, as many as the width asks for and no more, behind the dash of a
/// negative number.
pub proof fn law_padding_is_zeros_in_front(n: nat, width: int)
    ensures
        padded_decimal(n as int, width).len() == (if decimal(n).len() >= width {
            decimal(n).len() as int
        } else {
            width
        }),
        padded_decimal(n as int, width).skip(
            padded_decimal(n as int, width).len() - decimal(n).len(),
        ) == decimal(n),
        forall|i: int|
            0 <= i < padded_decimal(n as int, width).len() - decimal(n).len() ==> (
            #[trigger] padded_decimal(n as int, width)[i]) == '0',
        n > 0 ==> padded_decimal(-n, width) == seq!['-'] + padded_decimal(n as int, width - 1),
{
    let text = padded_decimal(n as int, width);
    assert(text.skip(text.len() - decimal(n).len()) =~= decimal(n));
}

/// A run of digits is read as an unsigned number by position, with or without a `+` in front; what
/// is larger than 64 bits hold is not read.
pub proof fn law_unsigned_is_read_by_position(s: Seq<char>, place: spec_fn(int, char) -> int)
    requires
        s.len() > 0,
        forall|i: int| 0 <= i < s.len() ==> '0' <= #[trigger] s[i] <= '9',
        forall|v: int, c: char| #[trigger] place(v, c) == 10 * v + (c as int - 48),
    ensures
        s.fold_left(0, place) >= 0,
        s.fold_left(0, place) <= 0xffff_ffff_ffff_ffff ==> {
            &&& unsigned_value(s) matches Some(n) && n == s.fold_left(0, place)
            &&& unsigned_value(seq!['+'] + s) matches Some(n) && n == s.fold_left(0, place)
        },
        s.fold_left(0, place) > 0xffff_ffff_ffff_ffff ==> unsigned_value(s) is None
            && unsigned_value(seq!['+'] + s) is None,
{
    lemma_positional_value(s, place);
    assert forall|i: int| 0 <= i < s.len() implies is_digit(#[trigger] s[i]) by {}
    assert((seq!['+'] + s).skip(1) =~= s);
    assert(s[0] != '+');
}

/// A run of digits is read as a signed number by position, with or without a sign in front; what
/// 64 bits do not hold is not read.
pub proof fn law_signed_is_read_by_position(s: Seq<char>, place: spec_fn(int, char) -> int)
    requires
        s.len() > 0,
        forall|i: int| 0 <= i < s.len() ==> '0' <= #[trigger] s[i] <= '9',
        forall|v: int, c: char| #[trigger] place(v, c) == 10 * v + (c as int - 48),
    ensures
        s.fold_left(0, place) >= 0,
        s.fold_left(0, place) <= 0x7fff_ffff_ffff_ffff ==> {
            &&& signed_value(s) matches Some(n) && n == s.fold_left(0, place)
            &&& signed_value(seq!['+'] + s) matches Some(n) && n == s.fold_left(0, place)
        },
        s.fold_left(0, place) > 0x7fff_ffff_ffff_ffff ==> signed_value(s) is None && signed_value(
            seq!['+'] + s,
        ) is None,
        s.fold_left(0, place) <= 0x8000_0000_0000_0000 ==> (signed_value(seq!['-'] + s) matches Some(
            n,
        ) && n == -s.fold_left(0, place)),
        s.fold_left(0, place) > 0x8000_0000_0000_0000 ==> signed_value(seq!['-'] + s) is None,
{
    lemma_positional_value(s, place);
    assert forall|i: int| 0 <= i < s.len() implies is_digit(#[trigger] s[i]) by {}
    assert((seq!['+'] + s).skip(1) =~= s);
    assert((seq!['-'] + s).skip(1) =~= s);
    assert(s[0] != '+' && s[0] != '-');
}

/// Text with anything but digits in it, a sign in front aside, is no number.
pub proof fn law_text_is_no_number(s: Seq<char>, i: int)
    requires
        0 <= i < s.len(),
        !('0' <= s[i] <= '9'),
    ensures
        i > 0 || s[0] != '+' ==> unsigned_value(s) is None,
        i > 0 || s[0] != '+' && s[0] != '-' ==> signed_value(s) is None,
{
    let rest = s.skip(1);
    if i > 0 {
        assert(rest[i - 1] == s[i]);
    }
}

/// No digits are no number.
pub proof fn law_no_digits_are_no_number(s: Seq<char>)
    requires
        s.len() == 0 || s == seq!['+'] || s == seq!['-'],
    ensures
        unsigned_value(s) is None,
        signed_value(s) is None,
{
    if s.len() > 0 {
        assert(s.skip(1).len() == 0);
        assert(!is_digit(s[0]));
    }
}

/// White space is the tab and the four characters after it, the space, and the wider spaces and
/// line ends of Unicode.
pub proof fn law_white_space(c: char)
    ensures
        is_whitespace(c) <==> {
            ||| 9 <= c as u32 <= 13
            ||| c == ' '
            ||| c as u32 == 133
            ||| c as u32 == 160
            ||| c as u32 == 5760
            ||| 8192 <= c as u32 <= 8202
            ||| 8232 <= c as u32 <= 8233
            ||| c as u32 == 8239
            ||| c as u32 == 8287
            ||| c as u32 == 12288
        },
{
}

proof fn lemma_trim_start(a: Seq<char>, s: Seq<char>)
    requires
        forall|i: int| 0 <= i < a.len() ==> is_whitespace(#[trigger] a[i]),
    ensures
        trim_start(a + s) == trim_start(s),
    decreases a.len(),
{
    if a.len() == 0 {
        assert(a + s =~= s);
    } else {
        let rest = a.skip(1);
        assert forall|i: int| 0 <= i < rest.len() implies is_whitespace(#[trigger] rest[i]) by {
            assert(rest[i] == a[i + 1]);
        }
        lemma_trim_start(rest, s);
        assert((a + s)[0] == a[0]);
        assert((a + s).skip(1) =~= rest + s);
    }
}

proof fn lemma_trim_end(s: Seq<char>, b: Seq<char>)
    requires
        forall|i: int| 0 <= i < b.len() ==> is_whitespace(#[trigger] b[i]),
    ensures
        trim_end(s + b) == trim_end(s),
    decreases b.len(),
{
    if b.len() == 0 {
        assert(s + b =~= s);
    } else {
        let rest = b.drop_last();
        assert forall|i: int| 0 <= i < rest.len() implies is_whitespace(#[trigger] rest[i]) by {
            assert(rest[i] == b[i]);
        }
        lemma_trim_end(s, rest);
        assert((s + b).last() == b[b.len() - 1]);
        assert((s + b).drop_last() =~= s + rest);
    }
}

/// White space around a text is dropped, and nothing else: a text that neither starts nor ends
/// with white space comes out whole, whatever white space was put before and after it.
pub proof fn law_only_white_space_around_is_dropped(
    before: Seq<char>,
    text: Seq<char>,
    after: Seq<char>,
)
    requires
        forall|i: int| 0 <= i < before.len() ==> is_whitespace(#[trigger] before[i]),
        forall|i: int| 0 <= i < after.len() ==> is_whitespace(#[trigger] after[i]),
        text.len() > 0 ==> !is_whitespace(text[0]) && !is_whitespace(text[text.len() - 1]),
    ensures
        trimmed(before + text + after) == text,
{
    assert(before + text + after =~= before + (text + after));
    lemma_trim_start(before, text + after);
    if text.len() == 0 {
        assert(text + after =~= after + text);
        lemma_trim_start(after, text);
    } else {
        assert((text + after)[0] == text[0]);
        lemma_trim_end(text, after);
    }
}

proof fn lemma_trim_end_keeps(s: Seq<char>, i: int)
    requires
        0 <= i < s.len(),
        !is_whitespace(s[i]),
    ensures
        trim_end(s).contains(s[i]),
    decreases s.len(),
{
    if is_whitespace(s.last()) {
        assert(s.drop_last()[i] == s[i]);
        lemma_trim_end_keeps(s.drop_last(), i);
    } else {
        assert(trim_end(s)[i] == s[i]);
    }
}

/// A character that is no white space stays when white space is dropped.
pub proof fn lemma_trimmed_keeps(s: Seq<char>, i: int)
    requires
        0 <= i < s.len(),
        !is_whitespace(s[i]),
    ensures
        trimmed(s).contains(s[i]),
    decreases s.len(),
{
    if is_whitespace(s[0]) {
        assert(s.skip(1)[i - 1] == s[i]);
        lemma_trimmed_keeps(s.skip(1), i - 1);
    } else {
        lemma_trim_end_keeps(s, i);
    }
}

} // verus!
