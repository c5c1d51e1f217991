//! Classification of a word of input: a decimal literal, a catalog name, or a
//! literal immediately followed by a unit name.
use vstd::prelude::*;
use crate::catalog::{find, find_entry, Catalogs};

verus! {

/// Which table a name was found in.
#[derive(Clone, Copy, Debug, PartialEq, Eq, Structural)]
pub enum Source {
    Unit,
    Constant,
    Number,
}

/// A resolved word: the leaf of an expression.
#[derive(Debug)]
pub enum Atom {
    /// A decimal literal, as written.
    Literal(Vec<char>),
    /// The entry at the given index of a table.
    Named(Source, usize),
    /// A decimal literal times the unit at the given index of the unit table.
    Scaled(Vec<char>, usize),
}

/// What an `Atom` denotes.
pub enum AtomModel {
    Literal(Seq<char>),
    Named(Source, int),
    Scaled(Seq<char>, int),
}

impl View for Atom {
    type V = AtomModel;

    open spec fn view(&self) -> AtomModel {
        match self {
            Atom::Literal(t) => AtomModel::Literal(t@),
            Atom::Named(src, i) => AtomModel::Named(*src, *i as int),
            Atom::Scaled(t, i) => AtomModel::Scaled(t@, *i as int),
        }
    }
}

pub open spec fn is_digit(c: char) -> bool {
    '0' <= c && c <= '9'
}

/// Characters that may continue a number after its first character.
pub open spec fn is_inner_number_char(c: char) -> bool {
    c == '.' || c == '_' || c == '-'
}

/// Whether position `i` of `s` belongs to the numeric part of a word: a
/// digit anywhere; `.`, `_` or `-` after the start; `e` or `E` after the start
/// when another number character follows it.
pub open spec fn is_number_char(s: Seq<char>, i: int) -> bool {
    is_digit(s[i]) || (i > 0 && is_inner_number_char(s[i])) || (i > 0 && (s[i] == 'e' || s[i]
        == 'E') && i + 1 < s.len() && (is_digit(s[i + 1]) || is_inner_number_char(s[i + 1])))
}

/// The first position at or after `i` that is not a number character.
pub open spec fn first_non_number_from(s: Seq<char>, i: int) -> Option<int>
    decreases s.len() - i,
{
    if i < 0 || i >= s.len() {
        None
    } else if !is_number_char(s, i) {
        Some(i)
    } else {
        first_non_number_from(s, i + 1)
    }
}

/// The end of the run of digits that starts at `i`.
pub open spec fn digits_end(s: Seq<char>, i: int) -> int
    decreases s.len() - i,
{
    if i < 0 || i >= s.len() || !is_digit(s[i]) {
        i
    } else {
        digits_end(s, i + 1)
    }
}

/// Where the optional fraction `.digits` that starts at `i` ends.
pub open spec fn fraction_end(s: Seq<char>, i: int) -> int {
    if 0 <= i < s.len() && s[i] == '.' {
        digits_end(s, i + 1)
    } else {
        i
    }
}

/// Whether `s` from `i` on is empty or an exponent `e`/`E`, an optional `-`,
/// and at least one digit.
pub open spec fn is_exponent_tail(s: Seq<char>, i: int) -> bool {
    i == s.len() || (0 <= i < s.len() && (s[i] == 'e' || s[i] == 'E') && {
        let j = if i + 1 < s.len() && s[i + 1] == '-' {
            i + 2
        } else {
            i + 1
        };
        digits_end(s, j) > j && digits_end(s, j) == s.len()
    })
}

/// Decimal literals that start with a digit:
/// `digits ['.' digits?] [('e'|'E') ['-'] digits]`.
pub open spec fn is_literal(s: Seq<char>) -> bool {
    digits_end(s, 0) > 0 && is_exponent_tail(s, fraction_end(s, digits_end(s, 0)))
}

/// A name looked up in the units, then the constants, then the numbers.
pub open spec fn resolve_name(cat: &Catalogs, name: Seq<char>) -> Option<AtomModel> {
    if let Some(i) = find_entry(cat.units@, name) {
        Some(AtomModel::Named(Source::Unit, i))
    } else if let Some(i) = find_entry(cat.constants@, name) {
        Some(AtomModel::Named(Source::Constant, i))
    } else if let Some(i) = find_entry(cat.numbers@, name) {
        Some(AtomModel::Named(Source::Number, i))
    } else {
        None
    }
}

/// What a word denotes, or `None` where it denotes nothing.
pub open spec fn atom_of(cat: &Catalogs, s: Seq<char>) -> Option<AtomModel> {
    if s.len() == 0 {
        None
    } else {
        match first_non_number_from(s, 0) {
            None => if is_literal(s) {
                Some(AtomModel::Literal(s))
            } else {
                None
            },
            Some(k) => if k == 0 {
                resolve_name(cat, s)
            } else if is_literal(s.subrange(0, k)) {
                match find_entry(cat.units@, s.subrange(k, s.len() as int)) {
                    Some(u) => Some(AtomModel::Scaled(s.subrange(0, k), u)),
                    None => None,
                }
            } else {
                None
            },
        }
    }
}

fn is_digit_exec(c: char) -> (r: bool)
    ensures
        r == is_digit(c),
{
    '0' <= c && c <= '9'
}

fn is_number_char_exec(s: &Vec<char>, i: usize) -> (r: bool)
    requires
        i < s@.len(),
    ensures
        r == is_number_char(s@, i as int),
{
    let c = s[i];
    if is_digit_exec(c) {
        return true;
    }
    if i > 0 && (c == '.' || c == '_' || c == '-') {
        return true;
    }
    if i > 0 && (c == 'e' || c == 'E') && i < s.len() - 1 {
        let d = s[i + 1];
        return is_digit_exec(d) || d == '.' || d == '_' || d == '-';
    }
    false
}

/// The first position of `s` that is not part of a number.
pub fn first_non_number(s: &Vec<char>) -> (r: Option<usize>)
    ensures
        r matches Some(k) ==> first_non_number_from(s@, 0) == Some(k as int) && k < s@.len(),
        r is None ==> first_non_number_from(s@, 0) is None,
{
    let mut i: usize = 0;
    while i < s.len()
        invariant
            i <= s@.len(),
            first_non_number_from(s@, 0) == first_non_number_from(s@, i as int),
        decreases s.len() - i,
    {
        if !is_number_char_exec(s, i) {
            return Some(i);
        }
        i += 1;
    }
    None
}

fn digits_end_exec(s: &Vec<char>, start: usize) -> (r: usize)
    requires
        start <= s@.len(),
    ensures
        r as int == digits_end(s@, start as int),
        start <= r <= s@.len(),
{
    let mut i = start;
    while i < s.len() && is_digit_exec(s[i])
        invariant
            start <= i <= s@.len(),
            digits_end(s@, start as int) == digits_end(s@, i as int),
        decreases s.len() - i,
    {
        i += 1;
    }
    i
}

/// Whether `s` is a decimal literal that starts with a digit.
pub fn is_literal_exec(s: &Vec<char>) -> (r: bool)
    ensures
        r == is_literal(s@),
{
    let a = digits_end_exec(s, 0);
    if a == 0 {
        return false;
    }
    let b = if a < s.len() && s[a] == '.' {
        digits_end_exec(s, a + 1)
    } else {
        a
    };
    assert(b as int == fraction_end(s@, a as int));
    if b == s.len() {
        return true;
    }
    if s[b] != 'e' && s[b] != 'E' {
        return false;
    }
    let j = if b + 1 < s.len() && s[b + 1] == '-' {
        b + 2
    } else {
        b + 1
    };
    let d = digits_end_exec(s, j);
    d > j && d == s.len()
}

/// The characters of `s` from `from` up to `to`.
pub fn slice(s: &Vec<char>, from: usize, to: usize) -> (r: Vec<char>)
    requires
        from <= to <= s@.len(),
    ensures
        r@ == s@.subrange(from as int, to as int),
{
    let mut r: Vec<char> = Vec::new();
    let mut i = from;
    while i < to
        invariant
            from <= i <= to <= s@.len(),
            r@ == s@.subrange(from as int, i as int),
        decreases to - i,
    {
        r.push(s[i]);
        i += 1;
    }
    r
}

impl Atom {
    /// Classifies a word: all numeric is a literal; starting with a
    /// non-number character is a name of a unit, a constant or a number;
    /// otherwise a literal followed by a unit name.
    pub fn parse(s: &Vec<char>, cat: &Catalogs) -> (r: Result<Atom, ()>)
        ensures
            r matches Ok(a) ==> atom_of(cat, s@) == Some(a@),
            r is Err <==> atom_of(cat, s@) is None,
    {
        if s.len() == 0 {
            return Err(());
        }
        match first_non_number(s) {
            None => {
                if is_literal_exec(s) {
                    Ok(Atom::Literal(s.clone()))
                } else {
                    Err(())
                }
            },
            Some(k) => {
                if k == 0 {
                    if let Some(i) = find(&cat.units, s) {
                        Ok(Atom::Named(Source::Unit, i))
                    } else if let Some(i) = find(&cat.constants, s) {
                        Ok(Atom::Named(Source::Constant, i))
                    } else if let Some(i) = find(&cat.numbers, s) {
                        Ok(Atom::Named(Source::Number, i))
                    } else {
                        Err(())
                    }
                } else {
                    assert(first_non_number_from(s@, 0) == Some(k as int));
                    let prefix = slice(s, 0, k);
                    if !is_literal_exec(&prefix) {
                        return Err(());
                    }
                    let suffix = slice(s, k, s.len());
                    match find(&cat.units, &suffix) {
                        Some(u) => Ok(Atom::Scaled(prefix, u)),
                        None => Err(()),
                    }
                }
            },
        }
    }
}

/// Every position of the run of digits from `i` holds a digit.
proof fn lemma_digits(s: Seq<char>, i: int)
    requires
        0 <= i <= s.len(),
    ensures
        i <= digits_end(s, i) <= s.len(),
        forall|j: int| i <= j < digits_end(s, i) ==> is_digit(#[trigger] s[j]),
        digits_end(s, i) < s.len() ==> !is_digit(s[digits_end(s, i)]),
    decreases s.len() - i,
{
    if i < s.len() && is_digit(s[i]) {
        lemma_digits(s, i + 1);
    }
}

/// A word whose positions from `i` on are all number characters has no
/// non-number position there.
proof fn lemma_all_numeric(s: Seq<char>, i: int)
    requires
        0 <= i <= s.len(),
        forall|j: int| i <= j < s.len() ==> is_number_char(s, j),
    ensures
        first_non_number_from(s, i) is None,
    decreases s.len() - i,
{
    if i < s.len() {
        lemma_all_numeric(s, i + 1);
    }
}

/// Every decimal literal is read back as itself: the word is all numeric
/// and its atom is the literal, whatever the catalogs hold.
pub proof fn lemma_literal_round_trip(cat: &Catalogs, s: Seq<char>)
    requires
        is_literal(s),
    ensures
        atom_of(cat, s) == Some(AtomModel::Literal(s)),
{
    let a = digits_end(s, 0);
    lemma_digits(s, 0);
    let b = fraction_end(s, a);
    if a < s.len() && s[a] == '.' {
        lemma_digits(s, a + 1);
    }
    if b < s.len() {
        let c = if b + 1 < s.len() && s[b + 1] == '-' {
            b + 2
        } else {
            b + 1
        };
        lemma_digits(s, c);
    }
    assert forall|j: int| 0 <= j < s.len() implies is_number_char(s, j) by {
        if j < a {
        } else if j < b {
            if j > a {
                assert(is_digit(s[j]));
            }
        } else if j == b {
            let c = if b + 1 < s.len() && s[b + 1] == '-' {
                b + 2
            } else {
                b + 1
            };
            assert(digits_end(s, c) > c);
            if c == b + 1 {
                assert(is_digit(s[c]));
            }
        } else {
            let c = if b + 1 < s.len() && s[b + 1] == '-' {
                b + 2
            } else {
                b + 1
            };
            if j >= c {
                assert(is_digit(s[j]));
            }
        }
    }
    lemma_all_numeric(s, 0);
}

} // verus!
