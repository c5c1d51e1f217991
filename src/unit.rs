//! How a unit is written: its centimetre, gram and second factors, each
//! given by the text of its exponent.
use vstd::prelude::*;

verus! {

/// One factor: nothing for exponent `0`, the bare name for `1`, and
/// `name^p` otherwise.
pub open spec fn factor_text(name: Seq<char>, power: Seq<char>) -> Seq<char> {
    if power == seq!['0'] {
        Seq::empty()
    } else if power == seq!['1'] {
        name
    } else {
        name + seq!['^'] + power
    }
}

/// Two pieces of text separated by a space, where both are present.
pub open spec fn joined(a: Seq<char>, b: Seq<char>) -> Seq<char> {
    if a.len() == 0 {
        b
    } else if b.len() == 0 {
        a
    } else {
        a + seq![' '] + b
    }
}

/// The written unit with the given exponent texts.
pub open spec fn unit_text(cm: Seq<char>, g: Seq<char>, s: Seq<char>) -> Seq<char> {
    joined(
        joined(factor_text(seq!['c', 'm'], cm), factor_text(seq!['g'], g)),
        factor_text(seq!['s'], s),
    )
}

fn append(out: &mut Vec<char>, x: &Vec<char>)
    ensures
        final(out)@ == old(out)@ + x@,
{
    let mut i: usize = 0;
    while i < x.len()
        invariant
            i <= x@.len(),
            out@ == old(out)@ + x@.subrange(0, i as int),
        decreases x.len() - i,
    {
        out.push(x[i]);
        i += 1;
        assert(x@.subrange(0, i as int) =~= x@.subrange(0, i - 1) + seq![x@[i - 1]]);
    }
    assert(x@.subrange(0, x@.len() as int) =~= x@);
}

fn is_single(p: &Vec<char>, c: char) -> (r: bool)
    ensures
        r == (p@ == seq![c]),
{
    if p.len() == 1 && p[0] == c {
        assert(p@ =~= seq![c]);
        true
    } else {
        false
    }
}

/// Appends the factor `name` with exponent text `power`, after a space when
/// something is already written.
fn push_factor(out: &mut Vec<char>, name: &Vec<char>, power: &Vec<char>)
    ensures
        final(out)@ == joined(old(out)@, factor_text(name@, power@)),
{
    if is_single(power, '0') {
        assert(old(out)@ =~= joined(old(out)@, Seq::empty()));
        return;
    }
    let mut f: Vec<char> = Vec::new();
    append(&mut f, name);
    if !is_single(power, '1') {
        f.push('^');
        append(&mut f, power);
    }
    assert(f@ =~= factor_text(name@, power@));
    if out.len() > 0 && f.len() > 0 {
        out.push(' ');
    }
    append(out, &f);
    assert(final(out)@ =~= joined(old(out)@, factor_text(name@, power@)));
}

/// Writes a unit from the texts of its three exponents.
pub fn format_unit(cm: &Vec<char>, g: &Vec<char>, s: &Vec<char>) -> (r: Vec<char>)
    ensures
        r@ == unit_text(cm@, g@, s@),
{
    let mut out: Vec<char> = Vec::new();
    let mut name: Vec<char> = Vec::new();
    name.push('c');
    name.push('m');
    assert(name@ =~= seq!['c', 'm']);
    push_factor(&mut out, &name, cm);
    assert(out@ =~= joined(Seq::empty(), factor_text(seq!['c', 'm'], cm@)));
    let mut name: Vec<char> = Vec::new();
    name.push('g');
    assert(name@ =~= seq!['g']);
    push_factor(&mut out, &name, g);
    let mut name: Vec<char> = Vec::new();
    name.push('s');
    assert(name@ =~= seq!['s']);
    push_factor(&mut out, &name, s);
    out
}

} // verus!
