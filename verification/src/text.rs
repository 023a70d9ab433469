//! Building text: decimal numbers and message pieces.
use vstd::prelude::*;

verus! {

/// `String::push` appends one character.
pub assume_specification[ String::push ](s: &mut String, ch: char)
    ensures
        final(s)@ == old(s)@.push(ch),
;

/// The character of decimal digit `d`.
pub open spec fn digit_char(d: nat) -> char {
    if d == 0 { '0' }
    else if d == 1 { '1' }
    else if d == 2 { '2' }
    else if d == 3 { '3' }
    else if d == 4 { '4' }
    else if d == 5 { '5' }
    else if d == 6 { '6' }
    else if d == 7 { '7' }
    else if d == 8 { '8' }
    else { '9' }
}

/// The decimal digits of `n`, most significant first, without leading zeros.
pub open spec fn decimal(n: nat) -> Seq<char>
    decreases n,
{
    if n < 10 {
        seq![digit_char(n)]
    } else {
        decimal(n / 10).push(digit_char(n % 10))
    }
}

/// An integer in decimal, with a leading `-` when negative.
pub open spec fn decimal_int(v: int) -> Seq<char> {
    if v < 0 {
        seq!['-'] + decimal((-v) as nat)
    } else {
        decimal(v as nat)
    }
}

fn digit(d: u64) -> (c: char)
    requires
        d < 10,
    ensures
        c == digit_char(d as nat),
{
    match d {
        0 => '0',
        1 => '1',
        2 => '2',
        3 => '3',
        4 => '4',
        5 => '5',
        6 => '6',
        7 => '7',
        8 => '8',
        _ => '9',
    }
}

/// Appends `v` in decimal.
pub fn push_u64(out: &mut String, v: u64)
    ensures
        final(out)@ == old(out)@ + decimal(v as nat),
    decreases v,
{
    if v < 10 {
        out.push(digit(v));
    } else {
        push_u64(out, v / 10);
        out.push(digit(v % 10));
        assert(old(out)@ + decimal(v as nat) =~= old(out)@ + decimal((v / 10) as nat) + seq![digit_char((v % 10) as nat)]);
    }
}

/// Appends `v` in decimal, with a leading `-` when negative.
pub fn push_i64(out: &mut String, v: i64)
    ensures
        final(out)@ == old(out)@ + decimal_int(v as int),
{
    if v < 0 {
        out.push('-');
        let mag: u64 = (0i128 - v as i128) as u64;
        push_u64(out, mag);
        assert(old(out)@ + decimal_int(v as int) =~= old(out)@.push('-') + decimal(mag as nat));
    } else {
        push_u64(out, v as u64);
    }
}

/// The text `line:col` of a source position.
pub open spec fn position_text(line: nat, col: nat) -> Seq<char> {
    decimal(line) + seq![':'] + decimal(col)
}

/// Appends `line:col`.
pub fn push_position(out: &mut String, line: usize, col: usize)
    ensures
        final(out)@ == old(out)@ + position_text(line as nat, col as nat),
{
    push_u64(out, line as u64);
    out.push(':');
    push_u64(out, col as u64);
    assert(old(out)@ + position_text(line as nat, col as nat) =~= old(out)@ + decimal(line as nat) + seq![':'] + decimal(col as nat));
}

/// The concatenation of the given pieces.
pub fn concat(parts: Vec<&str>) -> (r: String)
    ensures
        r@ == parts@.fold_left(Seq::<char>::empty(), |acc: Seq<char>, p: &str| acc + p@),
{
    let mut r = String::new();
    let mut i: usize = 0;
    while i < parts.len()
        invariant
            i <= parts@.len(),
            r@ == parts@.take(i as int).fold_left(Seq::<char>::empty(), |acc: Seq<char>, p: &str| acc + p@),
        decreases parts@.len() - i,
    {
        let ghost before = parts@.take(i as int);
        r.append(parts[i]);
        assert(parts@.take(i + 1) =~= before.push(parts@[i as int]));
        assert(before.push(parts@[i as int]).drop_last() =~= before);
        i = i + 1;
    }
    assert(parts@.take(parts@.len() as int) =~= parts@);
    r
}

} // verus!
