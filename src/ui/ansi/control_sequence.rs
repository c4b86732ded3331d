use vstd::prelude::*;

verus! {

/// The character of a decimal digit.
pub open spec fn digit_char(d: nat) -> char {
    if d == 0 {
        '0'
    } else if d == 1 {
        '1'
    } else if d == 2 {
        '2'
    } else if d == 3 {
        '3'
    } else if d == 4 {
        '4'
    } else if d == 5 {
        '5'
    } else if d == 6 {
        '6'
    } else if d == 7 {
        '7'
    } else if d == 8 {
        '8'
    } else {
        '9'
    }
}

/// `n` written in decimal, without leading zeros.
pub open spec fn decimal(n: nat) -> Seq<char>
    decreases n,
{
    if n < 10 {
        seq![digit_char(n)]
    } else {
        decimal(n / 10) + seq![digit_char(n % 10)]
    }
}

/// The parameters written in decimal and separated by semicolons.
pub open spec fn joined(params: Seq<nat>) -> Seq<char>
    decreases params.len(),
{
    if params.len() == 0 {
        Seq::empty()
    } else if params.len() == 1 {
        decimal(params[0])
    } else {
        joined(params.drop_last()) + seq![';'] + decimal(params.last())
    }
}

/// The control sequence `ESC [ params final_byte`.
pub open spec fn csi(params: Seq<nat>, final_byte: char) -> Seq<char> {
    seq!['\x1b', '['] + joined(params) + seq![final_byte]
}

/// The view of exec parameters.
pub open spec fn params_view(params: Seq<usize>) -> Seq<nat> {
    params.map_values(|p: usize| p as nat)
}

/// Relies on `String::push`: appends one character.
#[verifier::external_body]
pub(crate) fn push_char(s: &mut String, c: char)
    ensures
        final(s)@ == old(s)@.push(c),
{
    s.push(c)
}

/// Appends `n` in decimal.
fn push_decimal(s: &mut String, n: usize)
    ensures
        final(s)@ == old(s)@ + decimal(n as nat),
    decreases n,
{
    if n >= 10 {
        push_decimal(s, n / 10);
    }
    let d = n % 10;
    let c = if d == 0 {
        '0'
    } else if d == 1 {
        '1'
    } else if d == 2 {
        '2'
    } else if d == 3 {
        '3'
    } else if d == 4 {
        '4'
    } else if d == 5 {
        '5'
    } else if d == 6 {
        '6'
    } else if d == 7 {
        '7'
    } else if d == 8 {
        '8'
    } else {
        '9'
    };
    push_char(s, c);
    assert(s@ =~= old(s)@ + decimal(n as nat));
}

/// Build a control sequence by joining the given parameters with semicolons
pub fn print(params: &[usize], final_byte: char) -> (r: String)
    ensures
        r@ == csi(params_view(params@), final_byte),
{
    let mut r = String::new();
    push_char(&mut r, '\x1b');
    push_char(&mut r, '[');
    let ghost start = r@;
    let mut i: usize = 0;
    while i < params.len()
        invariant
            i <= params@.len(),
            start == seq!['\x1b', '['],
            r@ == start + joined(params_view(params@.take(i as int))),
        decreases params@.len() - i,
    {
        if i > 0 {
            push_char(&mut r, ';');
        }
        push_decimal(&mut r, params[i]);
        proof {
            let pv = params_view(params@.take(i + 1));
            assert(pv.drop_last() =~= params_view(params@.take(i as int)));
            assert(pv.last() == params@[i as int] as nat);
        }
        i += 1;
        assert(r@ =~= start + joined(params_view(params@.take(i as int))));
    }
    assert(params@.take(i as int) =~= params@);
    push_char(&mut r, final_byte);
    assert(r@ =~= csi(params_view(params@), final_byte));
    r
}

} // verus!
