//! The fixed tables of names a line may use: units, dimensional constants,
//! dimensionless numbers and functions.
use vstd::prelude::*;
use vstd::string::*;

verus! {

/// A named quantity: its scalar as decimal text and its unit as exponents of
/// centimetre, gram and second, each counted in halves.
pub struct Entry {
    pub name: &'static str,
    pub value: &'static str,
    pub cm_halves: i8,
    pub g_halves: i8,
    pub s_halves: i8,
}

/// A named function of one argument. The unit of its result is the unit of
/// its argument with every exponent multiplied by `scale_num / scale_den`.
pub struct Function {
    pub name: &'static str,
    pub scale_num: i8,
    pub scale_den: i8,
}

/// All tables a line is resolved against.
pub struct Catalogs {
    pub units: Vec<Entry>,
    pub constants: Vec<Entry>,
    pub numbers: Vec<Entry>,
    pub functions: Vec<Function>,
}

/// Index of the first entry at or after `i` named `name`.
pub open spec fn find_from(table: Seq<Entry>, name: Seq<char>, i: int) -> Option<int>
    decreases table.len() - i,
{
    if i < 0 || i >= table.len() {
        None
    } else if table[i].name@ == name {
        Some(i)
    } else {
        find_from(table, name, i + 1)
    }
}

/// Index of the first entry named `name`.
pub open spec fn find_entry(table: Seq<Entry>, name: Seq<char>) -> Option<int> {
    find_from(table, name, 0)
}

/// Index of the first function at or after `i` named `name`.
pub open spec fn find_function_from(table: Seq<Function>, name: Seq<char>, i: int) -> Option<int>
    decreases table.len() - i,
{
    if i < 0 || i >= table.len() {
        None
    } else if table[i].name@ == name {
        Some(i)
    } else {
        find_function_from(table, name, i + 1)
    }
}

/// Index of the first function named `name`.
pub open spec fn find_function_spec(table: Seq<Function>, name: Seq<char>) -> Option<int> {
    find_function_from(table, name, 0)
}

/// Whether `name` spells `s`.
pub fn same_name(name: &Vec<char>, s: &str) -> (r: bool)
    ensures
        r == (name@ == s@),
{
    let n = s.unicode_len();
    if n != name.len() {
        return false;
    }
    let mut i: usize = 0;
    while i < n
        invariant
            n == s@.len(),
            n == name@.len(),
            i <= n,
            forall|j: int| 0 <= j < i ==> name@[j] == s@[j],
        decreases n - i,
    {
        if name[i] != s.get_char(i) {
            return false;
        }
        i += 1;
    }
    assert(name@ =~= s@);
    true
}

/// Looks `name` up in `table`; the first entry of that name wins.
pub fn find(table: &Vec<Entry>, name: &Vec<char>) -> (r: Option<usize>)
    ensures
        r matches Some(i) ==> find_entry(table@, name@) == Some(i as int),
        r is None ==> find_entry(table@, name@) is None,
{
    let mut i: usize = 0;
    while i < table.len()
        invariant
            i <= table@.len(),
            find_from(table@, name@, 0) == find_from(table@, name@, i as int),
        decreases table.len() - i,
    {
        if same_name(name, table[i].name) {
            return Some(i);
        }
        i += 1;
    }
    None
}

/// Looks `name` up among the functions.
pub fn find_function(table: &Vec<Function>, name: &Vec<char>) -> (r: Option<usize>)
    ensures
        r matches Some(i) ==> find_function_spec(table@, name@) == Some(i as int),
        r is None ==> find_function_spec(table@, name@) is None,
{
    let mut i: usize = 0;
    while i < table.len()
        invariant
            i <= table@.len(),
            find_function_from(table@, name@, 0) == find_function_from(table@, name@, i as int),
        decreases table.len() - i,
    {
        if same_name(name, table[i].name) {
            return Some(i);
        }
        i += 1;
    }
    None
}

fn entry(name: &'static str, value: &'static str, cm_halves: i8, g_halves: i8, s_halves: i8) -> (r: Entry)
    ensures
        r.name == name,
        r.value == value,
        r.cm_halves == cm_halves,
        r.g_halves == g_halves,
        r.s_halves == s_halves,
{
    Entry { name, value, cm_halves, g_halves, s_halves }
}

fn function(name: &'static str, scale_num: i8, scale_den: i8) -> (r: Function)
    ensures
        r.name == name,
        r.scale_num == scale_num,
        r.scale_den == scale_den,
{
    Function { name, scale_num, scale_den }
}

/// The table of dimensionless numbers.
pub open spec fn number_table() -> Seq<Entry> {
    seq![
        Entry { name: "pi", value: "3.141592653589793", cm_halves: 0, g_halves: 0, s_halves: 0 },
        Entry { name: "e", value: "2.718281828459045", cm_halves: 0, g_halves: 0, s_halves: 0 },
        Entry { name: "egamma", value: "0.5772156649015329", cm_halves: 0, g_halves: 0, s_halves: 0 },
    ]
}

/// Dimensionless numbers.
pub fn numbers() -> (r: Vec<Entry>)
    ensures
        r@ == number_table(),
{
    let mut a: Vec<Entry> = Vec::new();
    a.push(entry("pi", "3.141592653589793", 0, 0, 0));
    a.push(entry("e", "2.718281828459045", 0, 0, 0));
    a.push(entry("egamma", "0.5772156649015329", 0, 0, 0));
    assert(a@ =~= number_table());
    a
}

/// The table of physical constants.
pub open spec fn constant_table() -> Seq<Entry> {
    seq![
        Entry { name: "electron_mass", value: "9.1093897e-28", cm_halves: 0, g_halves: 2, s_halves: 0 },
        Entry { name: "proton_mass", value: "1.6726231e-24", cm_halves: 0, g_halves: 2, s_halves: 0 },
        Entry { name: "electron_charge", value: "4.8032068e-10", cm_halves: 3, g_halves: -1i8, s_halves: -2i8 },
        Entry { name: "GN", value: "6.6743e-8", cm_halves: 6, g_halves: -2i8, s_halves: -4i8 },
        Entry { name: "h", value: "6.626075442665293e-27", cm_halves: 4, g_halves: 2, s_halves: -2i8 },
        Entry { name: "hbar", value: "1.05457266e-27", cm_halves: 4, g_halves: 2, s_halves: -2i8 },
        Entry { name: "c", value: "2.99792458e10", cm_halves: 2, g_halves: 0, s_halves: -2i8 },
        Entry { name: "kb", value: "1.3807e-16", cm_halves: 4, g_halves: 2, s_halves: -4i8 },
        Entry { name: "msun", value: "1.989e33", cm_halves: 0, g_halves: 2, s_halves: 0 },
        Entry { name: "lsun", value: "3.839e33", cm_halves: 4, g_halves: 2, s_halves: -4i8 },
    ]
}

/// Physical constants.
pub fn constants() -> (r: Vec<Entry>)
    ensures
        r@ == constant_table(),
{
    let mut a: Vec<Entry> = Vec::new();
    a.push(entry("electron_mass", "9.1093897e-28", 0, 2, 0));
    a.push(entry("proton_mass", "1.6726231e-24", 0, 2, 0));
    a.push(entry("electron_charge", "4.8032068e-10", 3, -1, -2));
    a.push(entry("GN", "6.6743e-8", 6, -2, -4));
    a.push(entry("h", "6.626075442665293e-27", 4, 2, -2));
    a.push(entry("hbar", "1.05457266e-27", 4, 2, -2));
    a.push(entry("c", "2.99792458e10", 2, 0, -2));
    a.push(entry("kb", "1.3807e-16", 4, 2, -4));
    a.push(entry("msun", "1.989e33", 0, 2, 0));
    a.push(entry("lsun", "3.839e33", 4, 2, -4));
    assert(a@ =~= constant_table());
    a
}

/// The table of base and derived units.
pub open spec fn unit_table() -> Seq<Entry> {
    seq![
        Entry { name: "cm", value: "1", cm_halves: 2, g_halves: 0, s_halves: 0 },
        Entry { name: "g", value: "1", cm_halves: 0, g_halves: 2, s_halves: 0 },
        Entry { name: "s", value: "1", cm_halves: 0, g_halves: 0, s_halves: 2 },
        Entry { name: "G", value: "1", cm_halves: -1i8, g_halves: 1, s_halves: -2i8 },
        Entry { name: "esu", value: "1", cm_halves: 3, g_halves: -1i8, s_halves: -2i8 },
        Entry { name: "erg", value: "1", cm_halves: 4, g_halves: 2, s_halves: -4i8 },
        Entry { name: "dyn", value: "1", cm_halves: 2, g_halves: 2, s_halves: -2i8 },
        Entry { name: "meV", value: "1.60218e-15", cm_halves: 4, g_halves: 2, s_halves: -4i8 },
        Entry { name: "eV", value: "1.60218e-12", cm_halves: 4, g_halves: 2, s_halves: -4i8 },
        Entry { name: "keV", value: "1.60218e-9", cm_halves: 4, g_halves: 2, s_halves: -4i8 },
        Entry { name: "MeV", value: "1.60218e-6", cm_halves: 4, g_halves: 2, s_halves: -4i8 },
        Entry { name: "GeV", value: "1.60218e-3", cm_halves: 4, g_halves: 2, s_halves: -4i8 },
        Entry { name: "TeV", value: "1.60218", cm_halves: 4, g_halves: 2, s_halves: -4i8 },
        Entry { name: "PeV", value: "1.60218e3", cm_halves: 4, g_halves: 2, s_halves: -4i8 },
        Entry { name: "EeV", value: "1.60218e6", cm_halves: 4, g_halves: 2, s_halves: -4i8 },
        Entry { name: "pc", value: "3.086e18", cm_halves: 2, g_halves: 0, s_halves: 0 },
        Entry { name: "ly", value: "9.461e17", cm_halves: 2, g_halves: 0, s_halves: 0 },
        Entry { name: "AU", value: "1.496e13", cm_halves: 2, g_halves: 0, s_halves: 0 },
        Entry { name: "min", value: "60", cm_halves: 0, g_halves: 0, s_halves: 2 },
        Entry { name: "hr", value: "3600", cm_halves: 0, g_halves: 0, s_halves: 2 },
        Entry { name: "d", value: "86400", cm_halves: 0, g_halves: 0, s_halves: 2 },
        Entry { name: "yr", value: "31557600", cm_halves: 0, g_halves: 0, s_halves: 2 },
        Entry { name: "kyr", value: "31557600000", cm_halves: 0, g_halves: 0, s_halves: 2 },
    ]
}

/// Base and derived units.
pub fn units() -> (r: Vec<Entry>)
    ensures
        r@ == unit_table(),
{
    let mut a: Vec<Entry> = Vec::new();
    a.push(entry("cm", "1", 2, 0, 0));
    a.push(entry("g", "1", 0, 2, 0));
    a.push(entry("s", "1", 0, 0, 2));
    a.push(entry("G", "1", -1, 1, -2));
    a.push(entry("esu", "1", 3, -1, -2));
    a.push(entry("erg", "1", 4, 2, -4));
    a.push(entry("dyn", "1", 2, 2, -2));
    a.push(entry("meV", "1.60218e-15", 4, 2, -4));
    a.push(entry("eV", "1.60218e-12", 4, 2, -4));
    a.push(entry("keV", "1.60218e-9", 4, 2, -4));
    a.push(entry("MeV", "1.60218e-6", 4, 2, -4));
    a.push(entry("GeV", "1.60218e-3", 4, 2, -4));
    a.push(entry("TeV", "1.60218", 4, 2, -4));
    a.push(entry("PeV", "1.60218e3", 4, 2, -4));
    a.push(entry("EeV", "1.60218e6", 4, 2, -4));
    a.push(entry("pc", "3.086e18", 2, 0, 0));
    a.push(entry("ly", "9.461e17", 2, 0, 0));
    a.push(entry("AU", "1.496e13", 2, 0, 0));
    a.push(entry("min", "60", 0, 0, 2));
    a.push(entry("hr", "3600", 0, 0, 2));
    a.push(entry("d", "86400", 0, 0, 2));
    a.push(entry("yr", "31557600", 0, 0, 2));
    a.push(entry("kyr", "31557600000", 0, 0, 2));
    assert(a@ =~= unit_table());
    a
}

/// The table of functions of one argument.
pub open spec fn function_table() -> Seq<Function> {
    seq![
        Function { name: "sqrt", scale_num: 1, scale_den: 2 },
        Function { name: "cbrt", scale_num: 1, scale_den: 3 },
        Function { name: "sin", scale_num: 0, scale_den: 1 },
        Function { name: "cos", scale_num: 0, scale_den: 1 },
        Function { name: "tan", scale_num: 0, scale_den: 1 },
        Function { name: "asin", scale_num: 0, scale_den: 1 },
        Function { name: "acos", scale_num: 0, scale_den: 1 },
        Function { name: "atan", scale_num: 0, scale_den: 1 },
        Function { name: "fact", scale_num: 0, scale_den: 1 },
        Function { name: "gamma", scale_num: 0, scale_den: 1 },
    ]
}

/// Functions of one argument.
pub fn functions() -> (r: Vec<Function>)
    ensures
        r@ == function_table(),
{
    let mut a: Vec<Function> = Vec::new();
    a.push(function("sqrt", 1, 2));
    a.push(function("cbrt", 1, 3));
    a.push(function("sin", 0, 1));
    a.push(function("cos", 0, 1));
    a.push(function("tan", 0, 1));
    a.push(function("asin", 0, 1));
    a.push(function("acos", 0, 1));
    a.push(function("atan", 0, 1));
    a.push(function("fact", 0, 1));
    a.push(function("gamma", 0, 1));
    assert(a@ =~= function_table());
    a
}

/// No two entries of a table share a name.
pub open spec fn names_distinct(table: Seq<Entry>) -> bool {
    forall|i: int, j: int| 0 <= i < j < table.len() ==> table[i].name@ != table[j].name@
}

/// No name stands in both tables.
pub open spec fn names_disjoint(a: Seq<Entry>, b: Seq<Entry>) -> bool {
    forall|i: int, j: int| 0 <= i < a.len() && 0 <= j < b.len() ==> a[i].name@ != b[j].name@
}

proof fn lemma_unit_names_distinct()
    ensures
        forall|i: int, j: int| 0 <= i < j < unit_table().len() ==> unit_table()[i].name@ != unit_table()[j].name@,
{
    reveal_strlit("AU");
    reveal_strlit("EeV");
    reveal_strlit("G");
    reveal_strlit("GeV");
    reveal_strlit("MeV");
    reveal_strlit("PeV");
    reveal_strlit("TeV");
    reveal_strlit("cm");
    reveal_strlit("d");
    reveal_strlit("dyn");
    reveal_strlit("eV");
    reveal_strlit("erg");
    reveal_strlit("esu");
    reveal_strlit("g");
    reveal_strlit("hr");
    reveal_strlit("keV");
    reveal_strlit("kyr");
    reveal_strlit("ly");
    reveal_strlit("meV");
    reveal_strlit("min");
    reveal_strlit("pc");
    reveal_strlit("s");
    reveal_strlit("yr");
    let a = unit_table();
    assert forall|i: int, j: int| 0 <= i < j < a.len() implies a[i].name@ != a[j].name@ by {
        if a[i].name@ == a[j].name@ {
            assert(a[i].name@.len() == a[j].name@.len());
            assert(a[i].name@[0] == a[j].name@[0]);
            assert(a[i].name@.len() > 1 ==> a[i].name@[1] == a[j].name@[1]);
        }
    }
}

proof fn lemma_constant_names_distinct()
    ensures
        forall|i: int, j: int| 0 <= i < j < constant_table().len() ==> constant_table()[i].name@ != constant_table()[j].name@,
{
    reveal_strlit("GN");
    reveal_strlit("c");
    reveal_strlit("electron_charge");
    reveal_strlit("electron_mass");
    reveal_strlit("h");
    reveal_strlit("hbar");
    reveal_strlit("kb");
    reveal_strlit("lsun");
    reveal_strlit("msun");
    reveal_strlit("proton_mass");
    let a = constant_table();
    assert forall|i: int, j: int| 0 <= i < j < a.len() implies a[i].name@ != a[j].name@ by {
        if a[i].name@ == a[j].name@ {
            assert(a[i].name@.len() == a[j].name@.len());
            assert(a[i].name@[0] == a[j].name@[0]);
            assert(a[i].name@.len() > 1 ==> a[i].name@[1] == a[j].name@[1]);
        }
    }
}

proof fn lemma_number_names_distinct()
    ensures
        forall|i: int, j: int| 0 <= i < j < number_table().len() ==> number_table()[i].name@ != number_table()[j].name@,
{
    reveal_strlit("e");
    reveal_strlit("egamma");
    reveal_strlit("pi");
    let a = number_table();
    assert forall|i: int, j: int| 0 <= i < j < a.len() implies a[i].name@ != a[j].name@ by {
        if a[i].name@ == a[j].name@ {
            assert(a[i].name@.len() == a[j].name@.len());
            assert(a[i].name@[0] == a[j].name@[0]);
            assert(a[i].name@.len() > 1 ==> a[i].name@[1] == a[j].name@[1]);
        }
    }
}

proof fn lemma_function_names_distinct()
    ensures
        forall|i: int, j: int| 0 <= i < j < function_table().len() ==> function_table()[i].name@ != function_table()[j].name@,
{
    reveal_strlit("acos");
    reveal_strlit("asin");
    reveal_strlit("atan");
    reveal_strlit("cbrt");
    reveal_strlit("cos");
    reveal_strlit("fact");
    reveal_strlit("gamma");
    reveal_strlit("sin");
    reveal_strlit("sqrt");
    reveal_strlit("tan");
    let a = function_table();
    assert forall|i: int, j: int| 0 <= i < j < a.len() implies a[i].name@ != a[j].name@ by {
        if a[i].name@ == a[j].name@ {
            assert(a[i].name@.len() == a[j].name@.len());
            assert(a[i].name@[0] == a[j].name@[0]);
            assert(a[i].name@.len() > 1 ==> a[i].name@[1] == a[j].name@[1]);
        }
    }
}

proof fn lemma_unit_constant_names_disjoint()
    ensures
        names_disjoint(unit_table(), constant_table()),
{
    reveal_strlit("AU");
    reveal_strlit("EeV");
    reveal_strlit("G");
    reveal_strlit("GN");
    reveal_strlit("GeV");
    reveal_strlit("MeV");
    reveal_strlit("PeV");
    reveal_strlit("TeV");
    reveal_strlit("c");
    reveal_strlit("cm");
    reveal_strlit("d");
    reveal_strlit("dyn");
    reveal_strlit("eV");
    reveal_strlit("electron_charge");
    reveal_strlit("electron_mass");
    reveal_strlit("erg");
    reveal_strlit("esu");
    reveal_strlit("g");
    reveal_strlit("h");
    reveal_strlit("hbar");
    reveal_strlit("hr");
    reveal_strlit("kb");
    reveal_strlit("keV");
    reveal_strlit("kyr");
    reveal_strlit("lsun");
    reveal_strlit("ly");
    reveal_strlit("meV");
    reveal_strlit("min");
    reveal_strlit("msun");
    reveal_strlit("pc");
    reveal_strlit("proton_mass");
    reveal_strlit("s");
    reveal_strlit("yr");
    let a = unit_table();
    let b = constant_table();
    assert forall|i: int, j: int| 0 <= i < a.len() && 0 <= j < b.len() implies a[i].name@ != b[j].name@ by {
        if a[i].name@ == b[j].name@ {
            assert(a[i].name@.len() == b[j].name@.len());
            assert(a[i].name@[0] == b[j].name@[0]);
            assert(a[i].name@.len() > 1 ==> a[i].name@[1] == b[j].name@[1]);
        }
    }
}

proof fn lemma_unit_number_names_disjoint()
    ensures
        names_disjoint(unit_table(), number_table()),
{
    reveal_strlit("AU");
    reveal_strlit("EeV");
    reveal_strlit("G");
    reveal_strlit("GeV");
    reveal_strlit("MeV");
    reveal_strlit("PeV");
    reveal_strlit("TeV");
    reveal_strlit("cm");
    reveal_strlit("d");
    reveal_strlit("dyn");
    reveal_strlit("e");
    reveal_strlit("eV");
    reveal_strlit("egamma");
    reveal_strlit("erg");
    reveal_strlit("esu");
    reveal_strlit("g");
    reveal_strlit("hr");
    reveal_strlit("keV");
    reveal_strlit("kyr");
    reveal_strlit("ly");
    reveal_strlit("meV");
    reveal_strlit("min");
    reveal_strlit("pc");
    reveal_strlit("pi");
    reveal_strlit("s");
    reveal_strlit("yr");
    let a = unit_table();
    let b = number_table();
    assert forall|i: int, j: int| 0 <= i < a.len() && 0 <= j < b.len() implies a[i].name@ != b[j].name@ by {
        if a[i].name@ == b[j].name@ {
            assert(a[i].name@.len() == b[j].name@.len());
            assert(a[i].name@[0] == b[j].name@[0]);
            assert(a[i].name@.len() > 1 ==> a[i].name@[1] == b[j].name@[1]);
        }
    }
}

proof fn lemma_constant_number_names_disjoint()
    ensures
        names_disjoint(constant_table(), number_table()),
{
    reveal_strlit("GN");
    reveal_strlit("c");
    reveal_strlit("e");
    reveal_strlit("egamma");
    reveal_strlit("electron_charge");
    reveal_strlit("electron_mass");
    reveal_strlit("h");
    reveal_strlit("hbar");
    reveal_strlit("kb");
    reveal_strlit("lsun");
    reveal_strlit("msun");
    reveal_strlit("pi");
    reveal_strlit("proton_mass");
    let a = constant_table();
    let b = number_table();
    assert forall|i: int, j: int| 0 <= i < a.len() && 0 <= j < b.len() implies a[i].name@ != b[j].name@ by {
        if a[i].name@ == b[j].name@ {
            assert(a[i].name@.len() == b[j].name@.len());
            assert(a[i].name@[0] == b[j].name@[0]);
            assert(a[i].name@.len() > 1 ==> a[i].name@[1] == b[j].name@[1]);
        }
    }
}

/// The catalogs are maps: each table names every entry once, no name is
/// both a unit, a constant or a number, and no two functions share a name.
pub proof fn lemma_catalog_names()
    ensures
        names_distinct(unit_table()),
        names_distinct(constant_table()),
        names_distinct(number_table()),
        names_disjoint(unit_table(), constant_table()),
        names_disjoint(unit_table(), number_table()),
        names_disjoint(constant_table(), number_table()),
        forall|i: int, j: int|
            0 <= i < j < function_table().len() ==> function_table()[i].name@ != function_table()[j].name@,
{
    lemma_unit_names_distinct();
    lemma_constant_names_distinct();
    lemma_number_names_distinct();
    lemma_function_names_distinct();
    lemma_unit_constant_names_disjoint();
    lemma_unit_number_names_disjoint();
    lemma_constant_number_names_disjoint();
}

impl Catalogs {
    /// The standard tables.
    pub fn new() -> (r: Catalogs)
        ensures
            r.units@ == unit_table(),
            r.constants@ == constant_table(),
            r.numbers@ == number_table(),
            r.functions@ == function_table(),
            names_distinct(r.units@),
            names_distinct(r.constants@),
            names_distinct(r.numbers@),
            names_disjoint(r.units@, r.constants@),
            names_disjoint(r.units@, r.numbers@),
            names_disjoint(r.constants@, r.numbers@),
    {
        proof {
            lemma_catalog_names();
        }
        Catalogs { units: units(), constants: constants(), numbers: numbers(), functions: functions() }
    }
}

} // verus!
