//! The line parser: one pass over the characters of a line that grows the
//! expression tree at a moving cursor.
use vstd::prelude::*;
use vstd::string::*;
use crate::catalog::Catalogs;
use crate::number::{atom_of, Atom, AtomModel, Source};
use crate::instruction::{
    climb_from, climbs_past, close_model, first_working_model, insert_model, is_insertable, lemma_path_same_links, model,
    next_model, path_ok, set_operator, tree_wf, with_op, Instruction, NodeModel, OpModel, Operator,
};

verus! {

/// Why a line could not be turned into a tree.
#[derive(Clone, Copy, Debug, PartialEq, Eq, Structural)]
pub enum ParseError {
    /// A character outside the language.
    UnrecognizedChar(char),
    /// A `)` with no open `(` to close.
    UnbalancedParens,
    /// A `,` that does not separate the arguments of a function.
    BadComma,
}

/// Characters that build words: letters, digits, `_` and `.`.
pub open spec fn is_word_char(c: char) -> bool {
    ('a' <= c && c <= 'z') || ('A' <= c && c <= 'Z') || ('0' <= c && c <= '9') || c == '_' || c
        == '.'
}

/// The characters a line may hold.
pub open spec fn is_accepted(c: char) -> bool {
    is_word_char(c) || c == ' ' || c == '*' || c == '/' || c == '+' || c == '-' || c == '^' || c
        == '(' || c == ')' || c == ',' || c == '\n'
}

/// Lines short enough that their tree's node indices fit in `usize`.
pub open spec fn fits(len: nat) -> bool {
    len * 16 + 64 <= usize::MAX
}

/// What holds of the tree and the cursor between two characters.
pub open spec fn state_ok(nodes: Seq<Instruction>, path: Seq<usize>) -> bool {
    tree_wf(nodes) && path_ok(nodes, path) && path.len() >= 2
}

/// The state between two characters: the arena seen node by node, the
/// cursor, the word being read, and whether the line has ended.
pub struct ParseState {
    pub ns: Seq<NodeModel>,
    pub path: Seq<usize>,
    pub word: Seq<char>,
    pub done: bool,
}

/// Arena and cursor after an operator: insert it, then move into its first
/// free slot.
#[verifier::opaque]
pub open spec fn apply_model(ns: Seq<NodeModel>, path: Seq<usize>, op: OpModel) -> (Seq<NodeModel>, Seq<usize>) {
    let (ns1, p1) = insert_model(ns, path, op);
    let t = first_working_model(ns1, p1);
    (t.0, t.1)
}

/// Arena and cursor after a juxtaposition, if the cursor holds an operand.
#[verifier::opaque]
pub open spec fn implicit_mul_model(ns: Seq<NodeModel>, path: Seq<usize>) -> (Seq<NodeModel>, Seq<usize>) {
    if ns[path.last() as int].op is Working {
        (ns, path)
    } else {
        apply_model(ns, path, OpModel::Mul)
    }
}

/// Arena and cursor after placing the operand `op`.
#[verifier::opaque]
pub open spec fn place_model(ns: Seq<NodeModel>, path: Seq<usize>, op: OpModel) -> (Seq<NodeModel>, Seq<usize>) {
    let (ns1, p1) = implicit_mul_model(ns, path);
    (ns1.update(p1.last() as int, with_op(ns1[p1.last() as int], op)), p1)
}

/// Arena and cursor after the word `word` ends.
#[verifier::opaque]
pub open spec fn commit_model(cat: &Catalogs, ns: Seq<NodeModel>, path: Seq<usize>, word: Seq<char>) -> (Seq<NodeModel>, Seq<usize>) {
    match atom_of(cat, word) {
        Some(AtomModel::Scaled(t, u)) => {
            let (ns1, p1) = place_model(ns, path, OpModel::Number(AtomModel::Literal(t)));
            place_model(ns1, p1, OpModel::Number(AtomModel::Named(Source::Unit, u)))
        },
        Some(a) => place_model(ns, path, OpModel::Number(a)),
        None => place_model(ns, path, OpModel::Func(word)),
    }
}

/// Arena and cursor after a `(`.
#[verifier::opaque]
pub open spec fn open_model(ns: Seq<NodeModel>, path: Seq<usize>) -> (Seq<NodeModel>, Seq<usize>) {
    let (ns1, p1) = if ns[path.last() as int].op is Func {
        let t = first_working_model(ns, path);
        (t.0, t.1)
    } else {
        implicit_mul_model(ns, path)
    };
    let ns2 = ns1.update(p1.last() as int, with_op(ns1[p1.last() as int], OpModel::Parentheses));
    let t = first_working_model(ns2, p1);
    (t.0, t.1)
}

/// Whether `c` continues the word `word`: a word character, or a `-` right
/// after the `e` of a number.
pub open spec fn continues_word(word: Seq<char>, c: char) -> bool {
    is_word_char(c) || (c == '-' && word.len() > 0 && (word.last() == 'e' || word.last() == 'E')
        && '0' <= word[0] && word[0] <= '9')
}

/// A state with the given arena and cursor and no pending word.
pub open spec fn between(t: (Seq<NodeModel>, Seq<usize>)) -> ParseState {
    ParseState { ns: t.0, path: t.1, word: seq![], done: false }
}

/// What a character other than a word character does once any pending
/// word has been placed.
pub open spec fn act_model(ns: Seq<NodeModel>, path: Seq<usize>, c: char) -> Result<ParseState, ParseError> {
    if c == ' ' {
        Ok(between((ns, path)))
    } else if c == '*' {
        Ok(between(apply_model(ns, path, OpModel::Mul)))
    } else if c == '/' {
        Ok(between(apply_model(ns, path, OpModel::Div)))
    } else if c == '+' {
        Ok(between(apply_model(ns, path, OpModel::Add)))
    } else if c == '-' {
        if ns[path.last() as int].op is Working {
            Ok(between(apply_model(ns, path, OpModel::Neg)))
        } else {
            Ok(between(apply_model(ns, path, OpModel::Sub)))
        }
    } else if c == '^' {
        Ok(between(apply_model(ns, path, OpModel::Expon)))
    } else if c == '\n' {
        Ok(ParseState { ns, path, word: seq![], done: true })
    } else if c == ')' {
        match close_model(ns, path) {
            Some(q) => Ok(between((ns, q))),
            None => Err(ParseError::UnbalancedParens),
        }
    } else if c == '(' {
        Ok(between(open_model(ns, path)))
    } else if c == ',' {
        if ns[path[path.len() - 2] as int].op is Func {
            match next_model(ns, path) {
                Some(q) => Ok(between((ns, q))),
                None => Err(ParseError::BadComma),
            }
        } else {
            Err(ParseError::BadComma)
        }
    } else {
        Err(ParseError::UnrecognizedChar(c))
    }
}

/// One character of input.
pub open spec fn step_model(cat: &Catalogs, st: ParseState, c: char) -> Result<ParseState, ParseError> {
    if continues_word(st.word, c) {
        Ok(ParseState { ns: st.ns, path: st.path, word: st.word.push(c), done: false })
    } else {
        let (ns, path) = if st.word.len() > 0 {
            commit_model(cat, st.ns, st.path, st.word)
        } else {
            (st.ns, st.path)
        };
        act_model(ns, path, c)
    }
}

/// The `k`-th character of a line, its end read as a newline.
pub open spec fn char_at(text: Seq<char>, k: int) -> char {
    if k < text.len() {
        text[k]
    } else {
        '\n'
    }
}

/// The state before any character: a root with one free slot.
pub open spec fn initial_state() -> ParseState {
    let root = NodeModel { op: OpModel::Head, parent: 0, children: None };
    let t = first_working_model(seq![root], seq![0usize]);
    ParseState { ns: t.0, path: t.1, word: seq![], done: false }
}

/// The state after the first `i` characters; nothing changes once the line
/// has ended or failed.
pub open spec fn run_model(cat: &Catalogs, text: Seq<char>, i: nat) -> Result<ParseState, ParseError>
    decreases i,
{
    if i == 0 {
        Ok(initial_state())
    } else {
        match run_model(cat, text, (i - 1) as nat) {
            Err(e) => Err(e),
            Ok(st) => if st.done {
                Ok(st)
            } else {
                step_model(cat, st, char_at(text, i - 1))
            },
        }
    }
}

/// The tree of a line, node by node, or the error that stops it.
pub open spec fn parse_model(cat: &Catalogs, text: Seq<char>) -> Result<Seq<NodeModel>, ParseError> {
    match run_model(cat, text, text.len() + 1) {
        Ok(st) => Ok(st.ns),
        Err(e) => Err(e),
    }
}

/// Once the line has ended or failed, later characters change nothing.
proof fn lemma_run_stable(cat: &Catalogs, text: Seq<char>, i: nat, k: nat)
    requires
        i <= k,
        run_model(cat, text, i) is Err || run_model(cat, text, i)->Ok_0.done,
    ensures
        run_model(cat, text, k) == run_model(cat, text, i),
    decreases k - i,
{
    if i < k {
        lemma_run_stable(cat, text, i, (k - 1) as nat);
    }
}

/// The line `text` with a space put in before its `k`-th character.
pub open spec fn with_space_at(text: Seq<char>, k: int) -> Seq<char> {
    text.subrange(0, k) + seq![' '] + text.subrange(k, text.len() as int)
}

/// Before the place where a space is put in, both lines run alike.
proof fn lemma_run_prefix(cat: &Catalogs, text: Seq<char>, k: nat, j: nat)
    requires
        k <= text.len(),
        j <= k,
    ensures
        run_model(cat, with_space_at(text, k as int), j) == run_model(cat, text, j),
    decreases j,
{
    if j > 0 {
        lemma_run_prefix(cat, text, k, (j - 1) as nat);
        assert(char_at(with_space_at(text, k as int), j - 1) == char_at(text, j - 1));
    }
}

/// After the space, the longer line runs one character behind.
proof fn lemma_run_shifted(cat: &Catalogs, text: Seq<char>, k: nat, m: nat, j: nat)
    requires
        k <= m <= j,
        k <= text.len(),
        run_model(cat, with_space_at(text, k as int), m + 1) == run_model(cat, text, m),
    ensures
        run_model(cat, with_space_at(text, k as int), j + 1) == run_model(cat, text, j),
    decreases j - m,
{
    if j > m {
        lemma_run_shifted(cat, text, k, m, (j - 1) as nat);
        let t2 = with_space_at(text, k as int);
        assert(char_at(t2, j as int) == char_at(text, j - 1));
    }
}

/// Whitespace is benign where it neither splits nor joins a word: a space
/// put into a line before its `k`-th character (or at its end) leaves its
/// tree, or its error, unchanged when no word is pending there, or when the
/// character that follows does not continue the pending word.
pub proof fn lemma_benign_space(cat: &Catalogs, text: Seq<char>, k: nat)
    requires
        k <= text.len(),
        run_model(cat, text, k) is Err || run_model(cat, text, k)->Ok_0.word.len() == 0
            || !continues_word(run_model(cat, text, k)->Ok_0.word, char_at(text, k as int)),
    ensures
        parse_model(cat, with_space_at(text, k as int)) == parse_model(cat, text),
{
    let t2 = with_space_at(text, k as int);
    lemma_run_prefix(cat, text, k, k);
    assert(char_at(t2, k as int) == ' ');
    assert(char_at(t2, k as int + 1) == char_at(text, k as int));
    match run_model(cat, text, k) {
        Err(e) => {
            lemma_run_shifted(cat, text, k, k, text.len() + 1);
        },
        Ok(st) => {
            if st.done {
                lemma_run_shifted(cat, text, k, k, text.len() + 1);
            } else if st.word.len() == 0 {
                assert(!continues_word(st.word, ' '));
                assert(st.word =~= Seq::<char>::empty());
                assert(step_model(cat, st, ' ') == Ok::<ParseState, ParseError>(st));
                lemma_run_shifted(cat, text, k, k, text.len() + 1);
            } else {
                let c = char_at(text, k as int);
                assert(!continues_word(st.word, ' '));
                let sp = step_model(cat, st, ' ');
                let (ns, path) = commit_model(cat, st.ns, st.path, st.word);
                assert(sp == act_model(ns, path, ' '));
                assert(sp == Ok::<ParseState, ParseError>(between((ns, path))));
                assert(!continues_word(between((ns, path)).word, c));
                assert(between((ns, path)).word.len() == 0);
                assert(step_model(cat, between((ns, path)), c) == act_model(ns, path, c));
                assert(run_model(cat, t2, k + 2) == run_model(cat, text, k + 1));
                lemma_run_shifted(cat, text, k, k + 1, text.len() + 1);
            }
        },
    }
    assert(t2.len() == text.len() + 1);
}

/// An operator lands at a position between 1 and where its climb starts.
proof fn lemma_climb_range(ns: Seq<NodeModel>, path: Seq<usize>, op: OpModel, j: int)
    requires
        j >= 1,
    ensures
        1 <= climb_from(ns, path, op, j) <= j,
    decreases j,
{
    if j > 1 && climbs_past(ns[path[j - 1] as int].op, op) {
        lemma_climb_range(ns, path, op, j - 1);
    }
}

/// Precedence and associativity. Let `q` be the node just above the cursor
/// and `op` the operator being inserted. An operator that binds tighter than
/// `q` (`*` or `/` or `^` under `+` or `-`, `^` under `*` or `/`) stays below
/// it and takes the cursor's operand; so does `^` under `^` (it nests to the
/// right) and `^` under a negation (unary minus binds looser than `^`), and
/// every operator under a parenthesis, a function or the root. A binary
/// operator other than `^` climbs past `q` when `q` binds at least as
/// tightly (`+`, `-` under `+` or `-`: left associativity; anything under `*`,
/// `/`, `^` or a negation that binds tighter). The inserted node takes the
/// slot of the node where the climb ends, which becomes its first operand.
pub proof fn lemma_precedence(ns: Seq<NodeModel>, path: Seq<usize>, op: OpModel)
    requires
        path.len() >= 2,
        ns[path[0] as int].op is Head,
        is_insertable(op),
        ns.len() + 2 <= usize::MAX,
        forall|k: int| 0 <= k < path.len() ==> #[trigger] path[k] < ns.len(),
    ensures
        ({
            let m = path.len() - 1;
            let q = ns[path[m - 1] as int].op;
            let j = climb_from(ns, path, op, m);
            &&& ((q is Add || q is Sub) && (op is Mul || op is Div || op is Expon)) ==> j == m
            &&& ((q is Mul || q is Div) && op is Expon) ==> j == m
            &&& (q is Expon && op is Expon) ==> j == m
            &&& (q is Neg && op is Expon) ==> j == m
            &&& (q is Parentheses || q is Func || q is Head) ==> j == m
            &&& ((q is Add || q is Sub) && (op is Add || op is Sub)) ==> j < m
            &&& ((q is Mul || q is Div || q is Expon || q is Neg) && (op is Add || op is Sub || op is Mul
                || op is Div)) ==> j < m
            &&& 1 <= j <= m
            &&& insert_model(ns, path, op).1 == path.subrange(0, j).push(ns.len() as usize)
            &&& insert_model(ns, path, op).0[ns.len() as int].op == op
            &&& insert_model(ns, path, op).0[ns.len() as int].children == Some(
                (path[j], (ns.len() + 1) as usize),
            )
        }),
{
    let m = path.len() - 1;
    let q = ns[path[m - 1] as int].op;
    lemma_climb_range(ns, path, op, m);
    if m > 1 && climbs_past(q, op) {
        lemma_climb_range(ns, path, op, m - 1);
    }
    reveal(insert_model);
}

/// After an operator is applied, the cursor stands on a free slot.
proof fn lemma_apply_lands_on_working(ns: Seq<NodeModel>, path: Seq<usize>, op: OpModel)
    requires
        path.len() >= 2,
        ns.len() + 2 <= usize::MAX,
        forall|k: int| 0 <= k < path.len() ==> #[trigger] path[k] < ns.len(),
    ensures
        ({
            let t = apply_model(ns, path, op);
            t.0[t.1.last() as int].op is Working
        }),
{
    reveal(apply_model);
    reveal(insert_model);
    reveal(first_working_model);
    let (ns1, p1) = insert_model(ns, path, op);
    let n = ns.len() as int;
    lemma_climb_range(ns, path, op, path.len() - 1);
    assert(p1.last() == n);
    assert(ns1[n].children == Some((path[climb_from(ns, path, op, path.len() - 1)], (n + 1) as usize)));
    assert(ns1[n + 1].op is Working);
}

/// Juxtaposition is multiplication: a word or a parenthesis that follows a
/// finished operand (other than a function name, which a parenthesis calls)
/// is placed exactly as if `*` stood between them.
pub proof fn lemma_juxtaposition(cat: &Catalogs, ns: Seq<NodeModel>, path: Seq<usize>, word: Seq<char>)
    requires
        path.len() >= 2,
        ns.len() + 2 <= usize::MAX,
        forall|k: int| 0 <= k < path.len() ==> #[trigger] path[k] < ns.len(),
        !(ns[path.last() as int].op is Working),
    ensures
        commit_model(cat, ns, path, word) == commit_model(
            cat,
            apply_model(ns, path, OpModel::Mul).0,
            apply_model(ns, path, OpModel::Mul).1,
            word,
        ),
        !(ns[path.last() as int].op is Func) ==> open_model(ns, path) == open_model(
            apply_model(ns, path, OpModel::Mul).0,
            apply_model(ns, path, OpModel::Mul).1,
        ),
{
    let t = apply_model(ns, path, OpModel::Mul);
    lemma_apply_lands_on_working(ns, path, OpModel::Mul);
    reveal(implicit_mul_model);
    reveal(place_model);
    reveal(commit_model);
    reveal(open_model);
    assert(implicit_mul_model(t.0, t.1) == t);
    assert(implicit_mul_model(ns, path) == t);
}

fn is_word_char_exec(c: char) -> (r: bool)
    ensures
        r == is_word_char(c),
{
    ('a' <= c && c <= 'z') || ('A' <= c && c <= 'Z') || ('0' <= c && c <= '9') || c == '_' || c
        == '.'
}

/// Inserts `op` above the cursor and moves into the new node's first free
/// slot.
fn apply_operator(nodes: &mut Vec<Instruction>, path: &mut Vec<usize>, op: Operator)
    requires
        state_ok(old(nodes)@, old(path)@),
        old(nodes)@.len() + 4 <= usize::MAX,
        is_insertable(op@),
    ensures
        (model(final(nodes)@), final(path)@) == apply_model(model(old(nodes)@), old(path)@, op@),
        state_ok(final(nodes)@, final(path)@),
        final(nodes)@.len() <= old(nodes)@.len() + 4,
{
    proof {
        reveal(apply_model);
    }
    Instruction::insert_in_parent(nodes, path, op);
    Instruction::get_first_working_child(nodes, path);
}

/// Multiplies by juxtaposition: when the cursor holds a finished operand, a
/// `*` is placed after it and the cursor moves to the new free slot.
fn implicit_mul(nodes: &mut Vec<Instruction>, path: &mut Vec<usize>)
    requires
        state_ok(old(nodes)@, old(path)@),
        old(nodes)@.len() + 4 <= usize::MAX,
    ensures
        (model(final(nodes)@), final(path)@) == implicit_mul_model(model(old(nodes)@), old(path)@),
        state_ok(final(nodes)@, final(path)@),
        final(nodes)@.len() <= old(nodes)@.len() + 4,
{
    proof {
        reveal(implicit_mul_model);
    }
    let cur = path[path.len() - 1];
    assert(model(nodes@)[cur as int] == nodes@[cur as int]@);
    if let Operator::Working = nodes[cur].operator {
    } else {
        apply_operator(nodes, path, Operator::Mul);
    }
}

/// Puts the operand `op` at the cursor, after a juxtaposed `*` when the
/// cursor already holds one.
fn place_operand(nodes: &mut Vec<Instruction>, path: &mut Vec<usize>, op: Operator)
    requires
        state_ok(old(nodes)@, old(path)@),
        old(nodes)@.len() + 4 <= usize::MAX,
        !(op is Head),
        !(op is Working),
        !is_insertable(op@),
    ensures
        (model(final(nodes)@), final(path)@) == place_model(model(old(nodes)@), old(path)@, op@),
        state_ok(final(nodes)@, final(path)@),
        final(nodes)@.len() <= old(nodes)@.len() + 4,
{
    proof {
        reveal(place_model);
    }
    implicit_mul(nodes, path);
    let cur = path[path.len() - 1];
    assert(cur != 0) by {
        assert(path@[0] != path@[path@.len() - 1]);
    }
    let ghost n0 = nodes@;
    set_operator(nodes, cur, op);
    proof {
        lemma_path_same_links(n0, nodes@, path@);
    }
}

/// Turns the finished word `word` into operands at the cursor: the atom it
/// denotes, or else a name that may turn out to be a function. A literal
/// written against a unit name is the product of the two, so that an
/// operator that follows binds to the unit alone.
fn commit(nodes: &mut Vec<Instruction>, path: &mut Vec<usize>, word: Vec<char>, cat: &Catalogs)
    requires
        state_ok(old(nodes)@, old(path)@),
        old(nodes)@.len() + 8 <= usize::MAX,
    ensures
        (model(final(nodes)@), final(path)@) == commit_model(cat, model(old(nodes)@), old(path)@, word@),
        state_ok(final(nodes)@, final(path)@),
        final(nodes)@.len() <= old(nodes)@.len() + 8,
{
    proof {
        reveal(commit_model);
    }
    match Atom::parse(&word, cat) {
        Ok(Atom::Scaled(t, u)) => {
            place_operand(nodes, path, Operator::Number(Atom::Literal(t)));
            place_operand(nodes, path, Operator::Number(Atom::Named(Source::Unit, u)));
        },
        Ok(a) => place_operand(nodes, path, Operator::Number(a)),
        Err(()) => place_operand(nodes, path, Operator::Func(word)),
    }
}

/// Readies the cursor for a `(`: into the body of a function name that
/// stands there, or past a juxtaposed operand.
fn before_paren(nodes: &mut Vec<Instruction>, path: &mut Vec<usize>)
    requires
        state_ok(old(nodes)@, old(path)@),
        old(nodes)@.len() + 8 <= usize::MAX,
    ensures
        (model(final(nodes)@), final(path)@) == (if model(old(nodes)@)[old(path)@.last() as int].op is Func {
            let t = first_working_model(model(old(nodes)@), old(path)@);
            (t.0, t.1)
        } else {
            implicit_mul_model(model(old(nodes)@), old(path)@)
        }),
        state_ok(final(nodes)@, final(path)@),
        final(nodes)@.len() <= old(nodes)@.len() + 4,
{
    let cur = path[path.len() - 1];
    assert(model(nodes@)[cur as int] == nodes@[cur as int]@);
    if let Operator::Func(_) = nodes[cur].operator {
        Instruction::get_first_working_child(nodes, path);
    } else {
        implicit_mul(nodes, path);
    }
}

/// Opens a parenthesis at the cursor: into the body of a function name that
/// stands there, after a juxtaposed operand, or in place of a free slot.
fn open_paren(nodes: &mut Vec<Instruction>, path: &mut Vec<usize>)
    requires
        state_ok(old(nodes)@, old(path)@),
        old(nodes)@.len() + 8 <= usize::MAX,
    ensures
        (model(final(nodes)@), final(path)@) == open_model(model(old(nodes)@), old(path)@),
        state_ok(final(nodes)@, final(path)@),
        final(nodes)@.len() <= old(nodes)@.len() + 8,
{
    proof {
        reveal(open_model);
    }
    before_paren(nodes, path);
    let cur = path[path.len() - 1];
    assert(cur != 0) by {
        assert(path@[0] != path@[path@.len() - 1]);
    }
    let ghost n0 = nodes@;
    set_operator(nodes, cur, Operator::Parentheses);
    proof {
        lemma_path_same_links(n0, nodes@, path@);
    }
    Instruction::get_first_working_child(nodes, path);
}

/// Performs what a character other than a word character does, once any
/// pending word has been placed. Returns whether the line has ended.
#[verifier::rlimit(60)]
fn act(nodes: &mut Vec<Instruction>, path: &mut Vec<usize>, c: char) -> (r: Result<bool, ParseError>)
    requires
        state_ok(old(nodes)@, old(path)@),
        old(nodes)@.len() + 8 <= usize::MAX,
        !is_word_char(c),
    ensures
        state_ok(final(nodes)@, final(path)@),
        final(nodes)@.len() <= old(nodes)@.len() + 8,
        match act_model(model(old(nodes)@), old(path)@, c) {
            Ok(st) => r == Ok::<bool, ParseError>(st.done) && st.ns == model(final(nodes)@) && st.path
                == final(path)@ && st.word == Seq::<char>::empty(),
            Err(e) => r == Err::<bool, ParseError>(e),
        },
        r matches Err(ParseError::UnrecognizedChar(d)) ==> d == c && !is_accepted(c),
        r is Err ==> c == ')' || c == ',' || !is_accepted(c),
{
    if c == ' ' {
    } else if c == '*' {
        apply_operator(nodes, path, Operator::Mul);
    } else if c == '/' {
        apply_operator(nodes, path, Operator::Div);
    } else if c == '+' {
        apply_operator(nodes, path, Operator::Add);
    } else if c == '-' {
        let cur = path[path.len() - 1];
        assert(model(nodes@)[cur as int] == nodes@[cur as int]@);
        if let Operator::Working = nodes[cur].operator {
            apply_operator(nodes, path, Operator::Neg);
        } else {
            apply_operator(nodes, path, Operator::Sub);
        }
    } else if c == '^' {
        apply_operator(nodes, path, Operator::Expon);
    } else if c == '\n' {
        return Ok(true);
    } else if c == ')' {
        if !Instruction::close_parentheses(nodes, path) {
            return Err(ParseError::UnbalancedParens);
        }
    } else if c == '(' {
        open_paren(nodes, path);
    } else if c == ',' {
        let parent = path[path.len() - 2];
        assert(model(nodes@)[parent as int] == nodes@[parent as int]@);
        if !matches!(nodes[parent].operator, Operator::Func(_)) {
            return Err(ParseError::BadComma);
        }
        if !Instruction::get_next_child(nodes, path) {
            return Err(ParseError::BadComma);
        }
    } else {
        return Err(ParseError::UnrecognizedChar(c));
    }
    Ok(false)
}

/// Builds the expression tree of one line. The line ends at its first
/// newline or at its end.
pub fn parse(text: &str, cat: &Catalogs) -> (r: Result<Vec<Instruction>, ParseError>)
    requires
        fits(text@.len()),
    ensures
        match parse_model(cat, text@) {
            Ok(ns) => r matches Ok(nodes) && model(nodes@) == ns,
            Err(e) => r == Err::<Vec<Instruction>, ParseError>(e),
        },
        r matches Ok(nodes) ==> tree_wf(nodes@) && nodes@[0].children is Some,
        r matches Err(ParseError::UnrecognizedChar(c)) ==> text@.contains(c) && !is_accepted(c),
        (forall|i: int| 0 <= i < text@.len() ==> is_accepted(#[trigger] text@[i])) ==> !(r matches Err(
            ParseError::UnrecognizedChar(_),
        )),
        (forall|i: int|
            0 <= i < text@.len() ==> is_accepted(#[trigger] text@[i]) && text@[i] != ')' && text@[i]
                != ',') ==> r is Ok,
{
    let n = text.unicode_len();
    let mut nodes: Vec<Instruction> = Vec::new();
    nodes.push(Instruction::head());
    let mut path: Vec<usize> = Vec::new();
    path.push(0);
    assert(model(nodes@) =~= seq![NodeModel { op: OpModel::Head, parent: 0, children: None }]);
    assert(path@ =~= seq![0usize]);
    Instruction::get_first_working_child(&mut nodes, &mut path);
    let mut buffer: Vec<char> = Vec::new();
    let mut i: usize = 0;
    let mut done = false;
    assert(buffer@ =~= Seq::<char>::empty());
    while i <= n && !done
        invariant
            n == text@.len(),
            fits(text@.len()),
            state_ok(nodes@, path@),
            i <= n + 1,
            nodes@.len() <= 4 + 16 * i,
            run_model(cat, text@, i as nat) == Ok::<ParseState, ParseError>(
                ParseState { ns: model(nodes@), path: path@, word: buffer@, done },
            ),
            done ==> i >= 1,
        decreases n + 1 - i,
    {
        let c = if i < n {
            text.get_char(i)
        } else {
            '\n'
        };
        assert(c == char_at(text@, i as int));
        let mut word = is_word_char_exec(c);
        if c == '-' && buffer.len() > 0 {
            let last = buffer[buffer.len() - 1];
            let first = buffer[0];
            if (last == 'e' || last == 'E') && '0' <= first && first <= '9' {
                word = true;
            }
        }
        assert(word == continues_word(buffer@, c));
        if word {
            buffer.push(c);
        } else {
            if buffer.len() > 0 {
                let w = buffer;
                buffer = Vec::new();
                commit(&mut nodes, &mut path, w, cat);
            }
            assert(buffer@ =~= Seq::<char>::empty());
            match act(&mut nodes, &mut path, c) {
                Ok(d) => {
                    done = d;
                },
                Err(e) => {
                    proof {
                        lemma_run_stable(cat, text@, (i + 1) as nat, (n + 1) as nat);
                        if let ParseError::UnrecognizedChar(d) = e {
                            assert(i < n);
                            assert(text@[i as int] == d);
                        }
                    }
                    return Err(e);
                },
            }
        }
        i += 1;
    }
    proof {
        lemma_run_stable(cat, text@, i as nat, (n + 1) as nat);
    }
    Ok(nodes)
}

} // verus!
