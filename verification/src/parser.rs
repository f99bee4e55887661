//! The recursive-descent parser: token stream to weighted rule graph.
//!
//! A statement is `Name : Body ;` where a body is a sequence of terms —
//! character literals, character classes, rule references and parenthesized
//! groups — separated by `|` into alternatives and decorated by the
//! quantifiers `? + * ^`, each optionally followed by a probability
//! annotation `<float>` that overrides its default weight of 0.5. Rule ids
//! are allocated at first reference, so forward references parse naturally;
//! a reference never declared is reported once, after the whole program, by
//! [`Parser::validate_graph`]. On the first unrecoverable syntax defect
//! parsing halts for the whole program.

use vstd::prelude::*;
use vstd::string::StrSliceExecFns;
use crate::chars::chars_of;
use crate::fixed::{SCALE, WEIGHT_MAX};
use crate::graph::{find_idx, weights_capped, NodeModel, NodeType, SyntaxGraph, END_ID, START_ID};
use crate::regex::{has_pattern, Regexer};
use crate::scanner::{is_digit, is_digit_spec, token_views, Token, TokenType};

verus! {

broadcast use crate::graph::lemma_graph_extends_trans;

/// A syntax or reference defect found while parsing.
#[derive(Debug, Clone, PartialEq, Eq)]
pub enum ParseError {
    /// A statement does not start with an identifier.
    ExpectedSubject,
    /// The statement's identifier is not followed by `:`.
    ExpectedColon,
    /// A second `:` turned up before the statement's `;`.
    MissingSemicolon,
    /// A `;` closed the statement while a `(` was still open.
    StrayOpen,
    /// A `)` with no matching `(`.
    StrayClose,
    /// The named rule is declared more than once.
    MultipleDefinition(String),
    /// The named rule is referenced but never declared.
    UndefinedReference(String),
    /// A probability annotation holds a negative value.
    NegativeProbability,
    /// A probability annotation holds no readable numeral.
    MalformedProbability,
}

/// One rule-name record: its text, its id, and whether a declaration
/// (`Name :`) has been seen, as opposed to mere references.
#[derive(Debug, Clone)]
pub struct NameEntry {
    pub name: String,
    pub id: u32,
    pub declared: bool,
}

impl View for NameEntry {
    type V = (Seq<char>, u32, bool);

    open spec fn view(&self) -> (Seq<char>, u32, bool) {
        (self.name@, self.id, self.declared)
    }
}

/// 10 to the `n`th power.
pub open spec fn pow10(n: nat) -> int
    decreases n,
{
    if n == 0 {
        1
    } else {
        10 * pow10((n - 1) as nat)
    }
}

/// The numeric value of a decimal digit character.
pub open spec fn digit_val(c: char) -> int {
    c as u32 as int - 48
}

/// The value of the decimal digits `cs[i..j)`.
pub open spec fn digits_val(cs: Seq<char>, i: int, j: int) -> int
    decreases j - i,
{
    if j <= i {
        0
    } else {
        digits_val(cs, i, j - 1) * 10 + digit_val(cs[j - 1])
    }
}

/// The first index at or after `i` whose character is not a decimal digit.
pub open spec fn digit_run_end(cs: Seq<char>, i: int) -> int
    decreases cs.len() - i when 0 <= i <= cs.len()
{
    if i >= cs.len() {
        i
    } else if is_digit_spec(cs[i]) {
        digit_run_end(cs, i + 1)
    } else {
        i
    }
}

/// The first index in `[i, j)` whose character is not `'0'`, or `j`.
pub open spec fn skip_zeros(cs: Seq<char>, i: int, j: int) -> int
    decreases j - i,
{
    if i >= j {
        j
    } else if cs[i] == '0' {
        skip_zeros(cs, i + 1, j)
    } else {
        i
    }
}

/// The fixed-point weight an annotation text stands for: decimal digits, at
/// most one point, nothing else; `None` when the text is no such numeral.
/// Exponent and signed forms (`1e-3`, `+0.5`) are not part of this grammar
/// and read as malformed. The fraction is kept to six digits (the
/// fixed-point resolution) and the value saturates at [`WEIGHT_MAX`].
pub open spec fn prob_of(cs: Seq<char>) -> Option<u64> {
    let k = digit_run_end(cs, 0);
    let has_dot = k < cs.len() && cs[k] == '.';
    let fend = if has_dot {
        digit_run_end(cs, k + 1)
    } else {
        k
    };
    if fend != cs.len() {
        None
    } else if k == 0 && (!has_dot || fend == k + 1) {
        None
    } else {
        let z = skip_zeros(cs, 0, k);
        if k - z > 7 {
            Some(WEIGHT_MAX)
        } else {
            let iv = digits_val(cs, z, k);
            let flen = if has_dot {
                fend - (k + 1)
            } else {
                0
            };
            let m = if flen >= 6 {
                6
            } else {
                flen
            };
            let fv = digits_val(cs, k + 1, k + 1 + m) * pow10((6 - m) as nat);
            if iv * SCALE + fv > WEIGHT_MAX {
                Some(WEIGHT_MAX)
            } else {
                Some((iv * SCALE + fv) as u64)
            }
        }
    }
}

/// Digit runs are bounded by powers of ten.
pub proof fn lemma_digits_bound(cs: Seq<char>, i: int, j: int)
    requires
        0 <= i <= j <= cs.len(),
        forall|q: int| i <= q < j ==> is_digit_spec(cs[q]),
    ensures
        0 <= digits_val(cs, i, j) < pow10((j - i) as nat),
    decreases j - i,
{
    if j > i {
        lemma_digits_bound(cs, i, j - 1);
        assert(digits_val(cs, i, j) == digits_val(cs, i, j - 1) * 10 + digit_val(cs[j - 1]));
        assert(0 <= digit_val(cs[j - 1]) <= 9);
        assert(pow10((j - i) as nat) == 10 * pow10((j - i - 1) as nat));
        assert(digits_val(cs, i, j - 1) * 10 + 9 < pow10((j - i - 1) as nat) * 10)
            by (nonlinear_arith)
            requires
                digits_val(cs, i, j - 1) < pow10((j - i - 1) as nat),
        ;
    }
}

/// The concrete values of the small powers of ten the parser uses.
proof fn lemma_pow10_small()
    ensures
        pow10(0) == 1,
        pow10(1) == 10,
        pow10(2) == 100,
        pow10(3) == 1000,
        pow10(4) == 10000,
        pow10(5) == 100000,
        pow10(6) == 1000000,
        pow10(7) == 10000000,
        pow10(8) == 100000000,
{
    assert(pow10(0) == 1);
    assert(pow10(1) == 10);
    assert(pow10(2) == 100);
    assert(pow10(3) == 1000);
    assert(pow10(4) == 10000);
    assert(pow10(5) == 100000);
    assert(pow10(6) == 1000000);
    assert(pow10(7) == 10000000);
    assert(pow10(8) == 100000000);
}

/// Reads a probability annotation's text: exactly [`prob_of`].
pub fn parse_probability_text(text: &str) -> (r: Option<u64>)
    ensures
        r == prob_of(text@),
        (r is Some) ==> r->Some_0 <= WEIGHT_MAX,
{
    proof {
        lemma_pow10_small();
    }
    let cs = chars_of(text);
    let n = cs.len();
    // end of the integer-digit run
    let mut k: usize = 0;
    while k < n && is_digit(cs[k])
        invariant
            k <= n,
            n == cs@.len(),
            cs@ == text@,
            digit_run_end(cs@, 0) == digit_run_end(cs@, k as int),
            forall|q: int| 0 <= q < k ==> is_digit_spec(cs@[q]),
        decreases n - k,
    {
        k = k + 1;
    }
    proof {
        assert(digit_run_end(cs@, 0) == k as int);
    }
    let has_dot = k < n && cs[k] == '.';
    // end of the fraction-digit run
    let mut fend: usize = k;
    if has_dot {
        fend = k + 1;
        while fend < n && is_digit(cs[fend])
            invariant
                k + 1 <= fend <= n,
                n == cs@.len(),
                cs@ == text@,
                digit_run_end(cs@, k as int + 1) == digit_run_end(cs@, fend as int),
                forall|q: int| k + 1 <= q < fend ==> is_digit_spec(cs@[q]),
            decreases n - fend,
        {
            fend = fend + 1;
        }
        proof {
            assert(digit_run_end(cs@, k as int + 1) == fend as int);
        }
    }
    if fend != n {
        return None;
    }
    if k == 0 && (!has_dot || fend == k + 1) {
        return None;
    }
    // skip leading zeros of the integer part
    let mut z: usize = 0;
    while z < k && cs[z] == '0'
        invariant
            z <= k,
            k <= n,
            n == cs@.len(),
            skip_zeros(cs@, 0, k as int) == skip_zeros(cs@, z as int, k as int),
        decreases k - z,
    {
        z = z + 1;
    }
    proof {
        assert(skip_zeros(cs@, 0, k as int) == z as int);
    }
    if k - z > 7 {
        return Some(WEIGHT_MAX);
    }
    // integer part value
    let mut iv: u64 = 0;
    let mut q: usize = z;
    while q < k
        invariant
            z <= q <= k,
            k <= n,
            n == cs@.len(),
            k - z <= 7,
            forall|p: int| 0 <= p < k ==> is_digit_spec(cs@[p]),
            iv == digits_val(cs@, z as int, q as int),
            iv < 10000000,
        decreases k - q,
    {
        proof {
            lemma_pow10_small();
            lemma_digits_bound(cs@, z as int, q + 1);
            assert(pow10((q + 1 - z) as nat) <= pow10(7)) by {
                lemma_pow10_le(((q + 1 - z)) as nat, 7);
            }
        }
        iv = iv * 10 + ((cs[q] as u32) as u64 - 48);
        q = q + 1;
    }
    // fraction value, to six digits
    let flen: usize = if has_dot {
        fend - (k + 1)
    } else {
        0
    };
    let m: usize = if flen >= 6 {
        6
    } else {
        flen
    };
    let mut fv: u64 = 0;
    let mut p: usize = 0;
    while p < m
        invariant
            p <= m,
            m <= 6,
            has_dot ==> k + 1 + m <= fend <= n,
            m > 0 ==> has_dot && k + 1 + m <= n,
            n == cs@.len(),
            forall|t: int| k + 1 <= t < k + 1 + m ==> is_digit_spec(cs@[t]),
            fv == digits_val(cs@, k as int + 1, k as int + 1 + p as int),
            fv < 1000000,
        decreases m - p,
    {
        proof {
            lemma_pow10_small();
            lemma_digits_bound(cs@, k as int + 1, k as int + 1 + p + 1);
            lemma_pow10_le((p + 1) as nat, 6);
        }
        fv = fv * 10 + ((cs[k + 1 + p] as u32) as u64 - 48);
        p = p + 1;
    }
    let mult: u64 = if m == 0 {
        1000000
    } else if m == 1 {
        100000
    } else if m == 2 {
        10000
    } else if m == 3 {
        1000
    } else if m == 4 {
        100
    } else if m == 5 {
        10
    } else {
        1
    };
    proof {
        assert(mult == pow10((6 - m) as nat));
        if m > 0 {
            lemma_digits_bound(cs@, k as int + 1, k as int + 1 + m as int);
            assert(fv * mult <= (pow10(m as nat) - 1) * pow10((6 - m) as nat))
                by (nonlinear_arith)
                requires
                    0 <= fv,
                    fv <= pow10(m as nat) - 1,
                    0 < mult,
                    mult == pow10((6 - m) as nat),
            ;
            assert((pow10(m as nat) - 1) * pow10((6 - m) as nat) < 1000000) by {
                lemma_pow10_mul(m as nat, (6 - m) as nat);
            }
        } else {
            assert(fv == 0);
        }
    }
    let fvs: u64 = fv * mult;
    let total: u64 = iv * 1000000 + fvs;
    if total > WEIGHT_MAX {
        Some(WEIGHT_MAX)
    } else {
        Some(total)
    }
}

/// Powers of ten grow with the exponent.
proof fn lemma_pow10_le(a: nat, b: nat)
    requires
        a <= b,
    ensures
        pow10(a) <= pow10(b),
        pow10(a) >= 1,
    decreases b,
{
    if b > 0 {
        if a == b {
            lemma_pow10_le((a - 1) as nat, (b - 1) as nat);
        } else {
            lemma_pow10_le(a, (b - 1) as nat);
        }
    }
}

/// `pow10(a) * pow10(b) == pow10(a + b)`.
proof fn lemma_pow10_mul(a: nat, b: nat)
    ensures
        pow10(a) * pow10(b) == pow10(a + b),
        (pow10(a) - 1) * pow10(b) < pow10(a + b),
    decreases a,
{
    lemma_pow10_le(0, a);
    lemma_pow10_le(0, b);
    if a == 0 {
    } else {
        lemma_pow10_mul((a - 1) as nat, b);
        assert(pow10(a) * pow10(b) == 10 * pow10((a - 1) as nat) * pow10(b));
        assert(10 * pow10((a - 1) as nat) * pow10(b) == 10 * (pow10((a - 1) as nat) * pow10(b)))
            by (nonlinear_arith);
        assert((pow10(a) - 1) * pow10(b) < pow10(a) * pow10(b)) by (nonlinear_arith)
            requires
                pow10(a) >= 1,
                pow10(b) >= 1,
        ;
    }
}


/// `a` is a prefix of `b`: what was accumulated is never dropped, only
/// appended to.
pub open spec fn seq_prefix<T>(a: Seq<T>, b: Seq<T>) -> bool {
    a.len() <= b.len() && forall|i: int| 0 <= i < a.len() ==> a[i] == #[trigger] b[i]
}

/// The name-table index holding `key`, searching from `i` on.
pub open spec fn entry_idx_from(ns: Seq<NameEntry>, key: Seq<char>, i: int) -> Option<int>
    decreases ns.len() - i when 0 <= i <= ns.len()
{
    if i >= ns.len() {
        None
    } else if ns[i]@.0 == key {
        Some(i)
    } else {
        entry_idx_from(ns, key, i + 1)
    }
}

/// A found name-table index is valid and holds the key searched for.
pub proof fn lemma_entry_idx_from_sound(ns: Seq<NameEntry>, key: Seq<char>, i: int)
    requires
        0 <= i <= ns.len(),
    ensures
        match entry_idx_from(ns, key, i) {
            Some(j) => i <= j < ns.len() && ns[j]@.0 == key,
            None => forall|q: int| i <= q < ns.len() ==> ns[q]@.0 != key,
        },
    decreases ns.len() - i,
{
    if i < ns.len() && ns[i]@.0 != key {
        lemma_entry_idx_from_sound(ns, key, i + 1);
    }
}

/// Rule names are unique: each name has exactly one table entry, and so
/// exactly one id.
pub open spec fn names_unique(ns: Seq<NameEntry>) -> bool {
    forall|j: int, k: int| 0 <= j < k < ns.len() ==> (#[trigger] ns[j])@.0 != (#[trigger] ns[k])@.0
}

/// The names never declared, in table order, from entry `i` on.
pub open spec fn undeclared_from(ns: Seq<NameEntry>, i: int) -> Seq<Seq<char>>
    decreases ns.len() - i when 0 <= i <= ns.len()
{
    if i >= ns.len() {
        Seq::empty()
    } else if !ns[i]@.2 {
        seq![ns[i]@.0] + undeclared_from(ns, i + 1)
    } else {
        undeclared_from(ns, i + 1)
    }
}

/// The view-level shape of a parse error: what each error says, with any
/// rule name as its characters.
pub enum ErrorModel {
    ExpectedSubject,
    ExpectedColon,
    MissingSemicolon,
    StrayOpen,
    StrayClose,
    MultipleDefinition(Seq<char>),
    UndefinedReference(Seq<char>),
    NegativeProbability,
    MalformedProbability,
}

/// The view of one parse error.
pub open spec fn err_view(e: ParseError) -> ErrorModel {
    match e {
        ParseError::ExpectedSubject => ErrorModel::ExpectedSubject,
        ParseError::ExpectedColon => ErrorModel::ExpectedColon,
        ParseError::MissingSemicolon => ErrorModel::MissingSemicolon,
        ParseError::StrayOpen => ErrorModel::StrayOpen,
        ParseError::StrayClose => ErrorModel::StrayClose,
        ParseError::MultipleDefinition(n) => ErrorModel::MultipleDefinition(n@),
        ParseError::UndefinedReference(n) => ErrorModel::UndefinedReference(n@),
        ParseError::NegativeProbability => ErrorModel::NegativeProbability,
        ParseError::MalformedProbability => ErrorModel::MalformedProbability,
    }
}

/// The views of an error list, in order.
pub open spec fn errors_view(es: Seq<ParseError>) -> Seq<ErrorModel> {
    es.map(|i: int, e: ParseError| err_view(e))
}

proof fn lemma_errors_view_push(es: Seq<ParseError>, e: ParseError)
    ensures
        errors_view(es.push(e)) =~= errors_view(es).push(err_view(e)),
{
}

/// The views of the name table, in order.
pub open spec fn names_views(ns: Seq<NameEntry>) -> Seq<(Seq<char>, u32, bool)> {
    Seq::new(ns.len(), |k: int| ns[k]@)
}

proof fn lemma_names_views_push(ns: Seq<NameEntry>, e: NameEntry)
    ensures
        names_views(ns.push(e)) =~= names_views(ns).push(e@),
{
}

proof fn lemma_prints_view_push(cm: Seq<(u32, String)>, e: (u32, String))
    ensures
        Seq::new(cm.push(e).len(), |i: int| (cm.push(e)[i].0, cm.push(e)[i].1@)) =~= Seq::new(
            cm.len(),
            |i: int| (cm[i].0, cm[i].1@),
        ).push((e.0, e.1@)),
{
}

/// The name table's (name, id) pairs, in order: what the freeze step keys
/// rule names by.
pub open spec fn names_pairs(ns: Seq<(Seq<char>, u32, bool)>) -> Seq<(Seq<char>, u32)> {
    Seq::new(ns.len(), |k: int| (ns[k].0, ns[k].1))
}

/// The whole construction state of the parser, at the model level: the
/// token stream, the two id counters, the rule-name table, the leaf content
/// table, the accumulated errors, the cursor, the graph, and the compiled
/// class patterns. Every parsing operation is a function of this state.
#[verifier::ext_equal]
pub struct ParserModel {
    pub toks: Seq<(int, TokenType, Seq<char>)>,
    pub func_ptr: u32,
    pub print_ptr: u32,
    pub names: Seq<(Seq<char>, u32, bool)>,
    pub charmap: Seq<(u32, Seq<char>)>,
    pub errors: Seq<ErrorModel>,
    pub index: int,
    pub graph: Seq<NodeModel>,
    pub classes: Seq<Seq<char>>,
}

/// The first name-table index holding `key`, searching from `i` on, at the
/// model level.
pub open spec fn lookup_name_from(ns: Seq<(Seq<char>, u32, bool)>, key: Seq<char>, i: int) -> Option<
    int,
>
    decreases ns.len() - i when 0 <= i <= ns.len()
{
    if i >= ns.len() {
        None
    } else if ns[i].0 == key {
        Some(i)
    } else {
        lookup_name_from(ns, key, i + 1)
    }
}

/// The names never declared, in table order, at the model level.
pub open spec fn undeclared_v(ns: Seq<(Seq<char>, u32, bool)>, i: int) -> Seq<Seq<char>>
    decreases ns.len() - i when 0 <= i <= ns.len()
{
    if i >= ns.len() {
        Seq::empty()
    } else if !ns[i].2 {
        seq![ns[i].0] + undeclared_v(ns, i + 1)
    } else {
        undeclared_v(ns, i + 1)
    }
}

/// Name lookup agrees across the two table representations.
pub proof fn lemma_lookup_name_corresponds(ns: Seq<NameEntry>, key: Seq<char>, i: int)
    requires
        0 <= i <= ns.len(),
    ensures
        lookup_name_from(names_views(ns), key, i) == entry_idx_from(ns, key, i),
    decreases ns.len() - i,
{
    if i < ns.len() && ns[i]@.0 != key {
        lemma_lookup_name_corresponds(ns, key, i + 1);
    }
}

/// The undeclared-name list agrees across the two table representations.
pub proof fn lemma_undeclared_corresponds(ns: Seq<NameEntry>, i: int)
    requires
        0 <= i <= ns.len(),
    ensures
        undeclared_v(names_views(ns), i) == undeclared_from(ns, i),
    decreases ns.len() - i,
{
    if i < ns.len() {
        lemma_undeclared_corresponds(ns, i + 1);
    }
}

/// The next ascending rule/control id; the counter holds at the top of the
/// range rather than wrapping.
pub open spec fn next_func_ptr(fp: u32) -> u32 {
    if fp < 4294967295 {
        (fp + 1) as u32
    } else {
        fp
    }
}

/// The next descending content id; the counter holds at the bottom of the
/// range rather than wrapping.
pub open spec fn next_print_ptr(pp: u32) -> u32 {
    if pp == 0 {
        0u32
    } else {
        (pp - 1) as u32
    }
}

/// Find-or-create at the model level: the arena index of the node with the
/// given id, and the possibly grown arena.
pub open spec fn spec_force_get(g: Seq<NodeModel>, id: u32, typ: NodeType) -> (int, Seq<NodeModel>) {
    match find_idx(g, id) {
        Some(i) => (i, g),
        None => (
            g.len() as int,
            g.push(
                NodeModel { id, typ, pointer: 0, edges: Seq::empty(), cf: Seq::empty() },
            ),
        ),
    }
}

/// Edge append at the model level.
pub open spec fn spec_add_edge(g: Seq<NodeModel>, from: int, to: u32, w: u64) -> Seq<NodeModel> {
    g.update(from, NodeModel { edges: g[from].edges.push((w, to)), ..g[from] })
}

/// Pointer assignment at the model level.
pub open spec fn spec_set_pointer(g: Seq<NodeModel>, idx: int, p: u32) -> Seq<NodeModel> {
    g.update(idx, NodeModel { pointer: p, ..g[idx] })
}

/// The id of a rule name: its table entry's, or a fresh ascending id
/// recorded as referenced-but-not-declared.
pub open spec fn spec_get_index(st: ParserModel, name: Seq<char>) -> (u32, ParserModel) {
    match lookup_name_from(st.names, name, 0) {
        Some(j) => (st.names[j].1, st),
        None => {
            let id = next_func_ptr(st.func_ptr);
            (id, ParserModel { func_ptr: id, names: st.names.push((name, id, false)), ..st })
        },
    }
}

/// Marking a name declared, and whether it already was.
pub open spec fn spec_mark_declared(st: ParserModel, name: Seq<char>) -> (bool, ParserModel) {
    match lookup_name_from(st.names, name, 0) {
        Some(j) => (
            st.names[j].2,
            ParserModel { names: st.names.update(j, (st.names[j].0, st.names[j].1, true)), ..st },
        ),
        None => (false, st),
    }
}

/// The weight read from the annotation after the current token, with its
/// cursor movement and error reports; the default 0.5 when none follows.
pub open spec fn spec_get_probability(st: ParserModel) -> (u64, ParserModel) {
    if st.index + 1 < st.toks.len() && st.toks[st.index + 1].1 == TokenType::Probability {
        let text = st.toks[st.index + 1].2;
        match prob_of(text) {
            Some(v) => (v, ParserModel { index: st.index + 1, ..st }),
            None => {
                if neg_prob(text) {
                    (
                        0,
                        ParserModel {
                            index: st.index + 1,
                            errors: st.errors.push(ErrorModel::NegativeProbability),
                            ..st
                        },
                    )
                } else {
                    (
                        500000,
                        ParserModel {
                            errors: st.errors.push(ErrorModel::MalformedProbability),
                            ..st
                        },
                    )
                }
            },
        }
    } else {
        (500000, st)
    }
}

/// One cursor step, held inside the token stream.
pub open spec fn bump_index(st: ParserModel) -> ParserModel {
    if st.index < st.toks.len() {
        ParserModel { index: st.index + 1, ..st }
    } else {
        st
    }
}

/// The state a loop iteration that started at cursor `prev` continues from:
/// one step past the iteration's work, held strictly past `prev` and inside
/// the stream. Every parsing step moves the cursor forward, so the holds
/// never fire; they make the recursion's progress evident by construction.
pub open spec fn loop_continue(st: ParserModel, prev: int) -> ParserModel {
    let bumped = bump_index(st);
    let idx = if bumped.index <= prev {
        prev + 1
    } else {
        bumped.index
    };
    let idx2 = if idx > bumped.toks.len() {
        bumped.toks.len() as int
    } else {
        idx
    };
    ParserModel { index: idx2, ..bumped }
}

/// The exec-level group result, as the model sees it.
pub open spec fn opt_int(o: Option<usize>) -> Option<int> {
    match o {
        Some(u) => Some(u as int),
        None => None,
    }
}

/// One rule body (or parenthesized group) parsed from the current cursor:
/// the preamble resolves the root and end nodes, then the loop takes the
/// body one token at a time. This is the grammar's body parser at the model
/// level; [`Parser::parse_rules`] returns exactly this.
pub open spec fn spec_parse_rules(st: ParserModel, root: u32, is_deep: bool) -> (
    ParserModel,
    Option<int>,
    Option<int>,
)
    decreases st.toks.len() - st.index, 1int when 0 <= st.index <= st.toks.len()
{
    let r0 = spec_force_get(st.graph, root, NodeType::IDK);
    let r1 = spec_force_get(r0.1, END_ID, NodeType::END);
    if is_deep {
        // a bracketed group gets an isolated pseudo end node
        let pid = next_func_ptr(st.func_ptr);
        let r2 = spec_force_get(r1.1, pid, NodeType::END);
        spec_rules_loop(
            ParserModel { func_ptr: pid, graph: r2.1, ..st },
            r0.0,
            pid,
            r2.0,
            r0.0,
            None,
            is_deep,
        )
    } else {
        spec_rules_loop(
            ParserModel { graph: r1.1, ..st },
            r0.0,
            END_ID,
            r1.0,
            r0.0,
            None,
            is_deep,
        )
    }
}

/// The body loop: one recursive step per token, carrying the scope's root
/// and end slots, the current buffer slot and the sequence-start slot. A
/// statement ends at `;`; a group ends at `)`; a stream that ends first
/// leaves a missing-semicolon error.
pub open spec fn spec_rules_loop(
    st: ParserModel,
    root_idx: int,
    end_id: u32,
    end_idx: int,
    buffer_idx: int,
    start_buffer: Option<int>,
    is_deep: bool,
) -> (ParserModel, Option<int>, Option<int>)
    decreases st.toks.len() - st.index, 0int when 0 <= st.index <= st.toks.len()
{
    if st.index >= st.toks.len() {
        // the token stream ended before this scope saw its terminator
        (
            ParserModel { errors: st.errors.push(ErrorModel::MissingSemicolon), ..st },
            start_buffer,
            Some(buffer_idx),
        )
    } else {
        let typ = st.toks[st.index].1;
        match typ {
            TokenType::Identifier => {
                // a reference: pointer node, its jump, and the call wiring
                let name = st.toks[st.index].2;
                let gi = spec_get_index(st, name);
                let fp2 = next_func_ptr(gi.1.func_ptr);
                let fg = spec_force_get(gi.1.graph, fp2, NodeType::POINTER);
                let g2 = spec_set_pointer(fg.1, fg.0, gi.0);
                let gp = spec_get_probability(ParserModel { func_ptr: fp2, graph: g2, ..gi.1 });
                let g3 = spec_add_edge(gp.1.graph, buffer_idx, fp2, gp.0);
                let fp3 = next_func_ptr(gp.1.func_ptr);
                let fj = spec_force_get(g3, fp3, NodeType::JUMP);
                let g5 = spec_add_edge(fj.1, fg.0, fp3, SCALE);
                let st4 = ParserModel { func_ptr: fp3, graph: g5, ..gp.1 };
                spec_rules_loop(
                    loop_continue(st4, st.index),
                    root_idx,
                    end_id,
                    end_idx,
                    fj.0,
                    Some(buffer_idx),
                    is_deep,
                )
            },
            TokenType::Character | TokenType::Regex => {
                // a leaf: content entry, leaf node, its jump, and the wiring
                let pid = next_print_ptr(st.print_ptr);
                let text = st.toks[st.index].2;
                let st1 = ParserModel {
                    print_ptr: pid,
                    charmap: st.charmap.push((pid, text)),
                    ..st
                };
                let is_class = typ == TokenType::Regex;
                let fg = if is_class {
                    spec_force_get(st1.graph, pid, NodeType::RX)
                } else {
                    spec_force_get(st1.graph, pid, NodeType::CH)
                };
                let classes1 = if is_class {
                    if has_pattern(st1.classes, text) {
                        st1.classes
                    } else {
                        st1.classes.push(text)
                    }
                } else {
                    st1.classes
                };
                let gp = spec_get_probability(
                    ParserModel { graph: fg.1, classes: classes1, ..st1 },
                );
                let g3 = spec_add_edge(gp.1.graph, buffer_idx, pid, gp.0);
                let fp = next_func_ptr(gp.1.func_ptr);
                let fj = spec_force_get(g3, fp, NodeType::JUMP);
                let g5 = spec_add_edge(fj.1, fg.0, fp, SCALE);
                let st4 = ParserModel { func_ptr: fp, graph: g5, ..gp.1 };
                spec_rules_loop(
                    loop_continue(st4, st.index),
                    root_idx,
                    end_id,
                    end_idx,
                    fj.0,
                    Some(buffer_idx),
                    is_deep,
                )
            },
            TokenType::Colon => {
                // a second ':' before the statement's ';'
                (
                    ParserModel {
                        errors: st.errors.push(ErrorModel::MissingSemicolon),
                        ..st
                    },
                    None,
                    None,
                )
            },
            TokenType::Maybe => {
                match start_buffer {
                    Some(sb) => {
                        let gp = spec_get_probability(st);
                        let w: u64 = if gp.0 > SCALE {
                            0
                        } else {
                            (SCALE - gp.0) as u64
                        };
                        let bid = gp.1.graph[buffer_idx].id;
                        let st2 = ParserModel {
                            graph: spec_add_edge(gp.1.graph, sb, bid, w),
                            ..gp.1
                        };
                        spec_rules_loop(
                            loop_continue(st2, st.index),
                            root_idx,
                            end_id,
                            end_idx,
                            buffer_idx,
                            start_buffer,
                            is_deep,
                        )
                    },
                    None => spec_rules_loop(
                        loop_continue(st, st.index),
                        root_idx,
                        end_id,
                        end_idx,
                        buffer_idx,
                        start_buffer,
                        is_deep,
                    ),
                }
            },
            TokenType::OneOrMore => {
                match start_buffer {
                    Some(sb) => {
                        let gp = spec_get_probability(st);
                        let sbid = gp.1.graph[sb].id;
                        let st2 = ParserModel {
                            graph: spec_add_edge(gp.1.graph, buffer_idx, sbid, gp.0),
                            ..gp.1
                        };
                        spec_rules_loop(
                            loop_continue(st2, st.index),
                            root_idx,
                            end_id,
                            end_idx,
                            buffer_idx,
                            start_buffer,
                            is_deep,
                        )
                    },
                    None => spec_rules_loop(
                        loop_continue(st, st.index),
                        root_idx,
                        end_id,
                        end_idx,
                        buffer_idx,
                        start_buffer,
                        is_deep,
                    ),
                }
            },
            TokenType::AnyNo => {
                match start_buffer {
                    Some(sb) => {
                        let gp = spec_get_probability(st);
                        let w: u64 = if gp.0 > SCALE {
                            0
                        } else {
                            (SCALE - gp.0) as u64
                        };
                        let bid = gp.1.graph[buffer_idx].id;
                        let g1 = spec_add_edge(gp.1.graph, sb, bid, w);
                        let sbid = g1[sb].id;
                        let g2 = spec_add_edge(g1, buffer_idx, sbid, gp.0);
                        let st2 = ParserModel { graph: g2, ..gp.1 };
                        spec_rules_loop(
                            loop_continue(st2, st.index),
                            root_idx,
                            end_id,
                            end_idx,
                            buffer_idx,
                            start_buffer,
                            is_deep,
                        )
                    },
                    None => spec_rules_loop(
                        loop_continue(st, st.index),
                        root_idx,
                        end_id,
                        end_idx,
                        buffer_idx,
                        start_buffer,
                        is_deep,
                    ),
                }
            },
            TokenType::Alternative => {
                // close this alternative toward the end node, restart at root
                let gp = spec_get_probability(st);
                let st2 = ParserModel {
                    graph: spec_add_edge(gp.1.graph, buffer_idx, end_id, gp.0),
                    ..gp.1
                };
                spec_rules_loop(
                    loop_continue(st2, st.index),
                    root_idx,
                    end_id,
                    end_idx,
                    root_idx,
                    None,
                    is_deep,
                )
            },
            TokenType::Padding => {
                let g1 = spec_add_edge(st.graph, buffer_idx, end_id, SCALE);
                let errs = if is_deep {
                    st.errors.push(ErrorModel::StrayOpen)
                } else {
                    st.errors
                };
                (
                    ParserModel { graph: g1, errors: errs, index: st.index + 1, ..st },
                    None,
                    None,
                )
            },
            TokenType::BracOpen => {
                let bid = st.graph[buffer_idx].id;
                let group = spec_parse_rules(
                    ParserModel { index: st.index + 1, ..st },
                    bid,
                    true,
                );
                let new_buffer = match group.2 {
                    Some(b) => b,
                    None => buffer_idx,
                };
                // parsing never changes the token stream; pinning it here
                // makes that evident to the termination measure
                spec_rules_loop(
                    loop_continue(ParserModel { toks: st.toks, ..group.0 }, st.index),
                    root_idx,
                    end_id,
                    end_idx,
                    new_buffer,
                    group.1,
                    is_deep,
                )
            },
            TokenType::BracClose => {
                if is_deep {
                    (
                        ParserModel {
                            graph: spec_add_edge(st.graph, buffer_idx, end_id, SCALE),
                            ..st
                        },
                        Some(root_idx),
                        Some(end_idx),
                    )
                } else {
                    let st1 = ParserModel {
                        errors: st.errors.push(ErrorModel::StrayClose),
                        ..st
                    };
                    spec_rules_loop(
                        loop_continue(st1, st.index),
                        root_idx,
                        end_id,
                        end_idx,
                        buffer_idx,
                        start_buffer,
                        is_deep,
                    )
                }
            },
            TokenType::Infinite => {
                match start_buffer {
                    Some(sb) => {
                        let sbid = st.graph[sb].id;
                        let st1 = ParserModel {
                            graph: spec_add_edge(st.graph, end_idx, sbid, SCALE),
                            ..st
                        };
                        spec_rules_loop(
                            loop_continue(st1, st.index),
                            root_idx,
                            end_id,
                            end_idx,
                            buffer_idx,
                            start_buffer,
                            is_deep,
                        )
                    },
                    None => spec_rules_loop(
                        loop_continue(st, st.index),
                        root_idx,
                        end_id,
                        end_idx,
                        buffer_idx,
                        start_buffer,
                        is_deep,
                    ),
                }
            },
            TokenType::Probability => {
                // a stray annotation with nothing before it: skipped
                spec_rules_loop(
                    loop_continue(st, st.index),
                    root_idx,
                    end_id,
                    end_idx,
                    buffer_idx,
                    start_buffer,
                    is_deep,
                )
            },
        }
    }
}

/// One `Name : Body ;` statement parsed from the current cursor: the two
/// head checks, the declaration (with its duplicate test), the start node's
/// edge to the rule's header, and the body. This is what
/// [`Parser::parse_subject`] does to the state, exactly.
pub open spec fn spec_parse_subject(st: ParserModel) -> ParserModel
    recommends
        0 <= st.index < st.toks.len(),
{
    let subject = st.toks[st.index].2;
    if st.toks[st.index].1 != TokenType::Identifier {
        ParserModel {
            index: st.index + 1,
            errors: st.errors.push(ErrorModel::ExpectedSubject),
            ..st
        }
    } else {
        let st0 = ParserModel { index: st.index + 1, ..st };
        if st0.index >= st0.toks.len() {
            ParserModel { errors: st0.errors.push(ErrorModel::ExpectedColon), ..st0 }
        } else if st0.toks[st0.index].1 != TokenType::Colon {
            ParserModel {
                index: st0.index + 1,
                errors: st0.errors.push(ErrorModel::ExpectedColon),
                ..st0
            }
        } else {
            let st1 = ParserModel { index: st0.index + 1, ..st0 };
            let gi = spec_get_index(st1, subject);
            let md = spec_mark_declared(gi.1, subject);
            let st4 = if md.0 {
                ParserModel {
                    errors: md.1.errors.push(ErrorModel::MultipleDefinition(subject)),
                    ..md.1
                }
            } else {
                md.1
            };
            let fs = spec_force_get(st4.graph, START_ID, NodeType::START);
            let fh = spec_force_get(fs.1, gi.0, NodeType::HEADER);
            let g3 = spec_add_edge(fh.1, fs.0, gi.0, SCALE);
            spec_parse_rules(ParserModel { graph: g3, ..st4 }, gi.0, false).0
        }
    }
}

/// The state a program-loop iteration that started at `prev` continues
/// from: the token stream pinned and the cursor held strictly past
/// `prev.index` and inside the stream. Statements always consume at least
/// one token, so the holds never fire; they make the recursion's progress
/// evident by construction.
pub open spec fn grammar_continue(st1: ParserModel, prev: ParserModel) -> ParserModel {
    let pinned = ParserModel { toks: prev.toks, ..st1 };
    let idx = if pinned.index <= prev.index {
        prev.index + 1
    } else {
        pinned.index
    };
    let idx2 = if idx > pinned.toks.len() {
        pinned.toks.len() as int
    } else {
        idx
    };
    ParserModel { index: idx2, ..pinned }
}

/// The whole program parsed from the current cursor, one statement at a
/// time, halting after the first statement that left errors. This is what
/// [`Parser::parse_grammar`] does to the state, exactly.
pub open spec fn spec_parse_grammar_from(st: ParserModel) -> ParserModel
    decreases st.toks.len() - st.index when 0 <= st.index <= st.toks.len()
{
    if st.index >= st.toks.len() {
        st
    } else {
        let st1 = spec_parse_subject(st);
        if st1.errors.len() > 0 {
            st1
        } else {
            spec_parse_grammar_from(grammar_continue(st1, st))
        }
    }
}

/// The two id spaces stay apart: as long as the ascending rule/control
/// counter has not met the descending content counter (they start about
/// 2^32 ids apart and every allocation moves one of them one step), every
/// rule id lies in `(1000, func_ptr]`, rule ids are pairwise distinct, and
/// every content id lies at or above `print_ptr` — so the two spaces never
/// collide, regardless of grammar size.
pub open spec fn id_spaces_ok(m: ParserModel) -> bool {
    m.func_ptr < m.print_ptr ==> {
        &&& 1000 <= m.func_ptr
        &&& (forall|k: int|
            0 <= k < m.names.len() ==> 1000 < (#[trigger] m.names[k]).1 && m.names[k].1
                <= m.func_ptr)
        &&& (forall|j: int, k: int|
            0 <= j < k < m.names.len() ==> (#[trigger] m.names[j]).1 != (#[trigger] m.names[k]).1)
        &&& (forall|k: int|
            0 <= k < m.charmap.len() ==> m.print_ptr <= (#[trigger] m.charmap[k]).0)
    }
}

/// Id-space discipline depends only on the counters and the two tables.
pub proof fn lemma_id_spaces_same(a: ParserModel, b: ParserModel)
    requires
        id_spaces_ok(a),
        b.names == a.names,
        b.charmap == a.charmap,
        b.func_ptr == a.func_ptr,
        b.print_ptr == a.print_ptr,
    ensures
        id_spaces_ok(b),
{
}

/// A fresh parser over a token stream: counters at their starting ends,
/// every table empty, the cursor at the front.
pub open spec fn initial_parser_model(toks: Seq<(int, TokenType, Seq<char>)>) -> ParserModel {
    ParserModel {
        toks,
        func_ptr: 1000,
        print_ptr: 4294967295,
        names: Seq::empty(),
        charmap: Seq::empty(),
        errors: Seq::empty(),
        index: 0,
        graph: Seq::empty(),
        classes: Seq::empty(),
    }
}

/// Whether the annotation text is a well-formed numeral with a leading
/// minus sign: a negative probability, reported as such.
pub open spec fn neg_prob(cs: Seq<char>) -> bool {
    cs.len() > 0 && cs[0] == '-' && (prob_of(cs.subrange(1, cs.len() as int)) is Some)
}

/// The recursive-descent parser and its construction state: the token
/// stream, the id counters for the two id spaces, the rule-name table, the
/// leaf content table, the growing graph and the class sampler.
pub struct Parser {
    func_ptr: u32,
    print_ptr: u32,
    names: Vec<NameEntry>,
    charmap: Vec<(u32, String)>,
    tokens: Vec<Token>,
    errors: Vec<ParseError>,
    index: usize,
    graph: SyntaxGraph,
    regexhandler: Regexer,
}

impl Parser {
    /// The parser's invariant: edge weights capped (so normalization sums
    /// fit), the sampler's cache pinned to its patterns, and the cursor
    /// inside the token stream.
    pub closed spec fn wf(self) -> bool {
        &&& weights_capped(self.graph@)
        &&& self.regexhandler.wf()
        &&& self.index <= self.tokens@.len()
        &&& names_unique(self.names@)
        &&& id_spaces_ok(self.model())
    }

    pub closed spec fn tokens_seq(self) -> Seq<Token> {
        self.tokens@
    }

    pub closed spec fn errors_seq(self) -> Seq<ParseError> {
        self.errors@
    }

    pub closed spec fn index_val(self) -> int {
        self.index as int
    }

    pub closed spec fn names_seq(self) -> Seq<NameEntry> {
        self.names@
    }

    pub closed spec fn graph_model(self) -> Seq<crate::graph::NodeModel> {
        self.graph@
    }

    pub closed spec fn prints_seq(self) -> Seq<(u32, Seq<char>)> {
        Seq::new(self.charmap@.len(), |i: int| (self.charmap@[i].0, self.charmap@[i].1@))
    }

    pub closed spec fn classes_seq(self) -> Seq<Seq<char>> {
        self.regexhandler@
    }

    /// The parser's whole construction state, at the model level.
    pub closed spec fn model(self) -> ParserModel {
        ParserModel {
            toks: token_views(self.tokens@),
            func_ptr: self.func_ptr,
            print_ptr: self.print_ptr,
            names: names_views(self.names@),
            charmap: self.prints_seq(),
            errors: errors_view(self.errors@),
            index: self.index as int,
            graph: self.graph@,
            classes: self.regexhandler@,
        }
    }

    pub fn new() -> (r: Parser)
        ensures
            r.wf(),
            r.errors_seq() =~= Seq::<ParseError>::empty(),
            r.tokens_seq() =~= Seq::<Token>::empty(),
            r.names_seq() =~= Seq::<NameEntry>::empty(),
            r.index_val() == 0,
            r.model() == initial_parser_model(Seq::empty()),
    {
        let r = Parser {
            print_ptr: 4294967295,  // content ids grow downward from the top
            func_ptr: 1000,  // ids below 1000 are reserved for core nodes
            names: Vec::new(),
            charmap: Vec::new(),
            tokens: Vec::new(),
            errors: Vec::new(),
            index: 0,
            graph: SyntaxGraph::new(),
            regexhandler: Regexer::new(),
        };
        proof {
            assert(r.model() =~= initial_parser_model(Seq::<(int, TokenType, Seq<char>)>::empty()))
                by {
                assert(r.model().toks =~= Seq::<(int, TokenType, Seq<char>)>::empty());
                assert(r.model().names =~= Seq::<(Seq<char>, u32, bool)>::empty());
                assert(r.model().charmap =~= Seq::<(u32, Seq<char>)>::empty());
                assert(r.model().errors =~= Seq::<ErrorModel>::empty());
            }
        }
        r
    }

    /// Hands the parser a token stream and resets the cursor.
    pub fn set_tokens(&mut self, tokens: Vec<Token>)
        requires
            old(self).wf(),
        ensures
            final(self).wf(),
            final(self).tokens_seq() == tokens@,
            final(self).index_val() == 0,
            final(self).errors_seq() == old(self).errors_seq(),
            final(self).names_seq() == old(self).names_seq(),
            final(self).graph_model() == old(self).graph_model(),
            final(self).prints_seq() == old(self).prints_seq(),
            final(self).classes_seq() == old(self).classes_seq(),
            final(self).model() == (ParserModel {
                toks: token_views(tokens@),
                index: 0,
                ..old(self).model()
            }),
    {
        self.tokens = tokens;
        self.index = 0;
        proof {
            assert(self.model() =~= (ParserModel {
                toks: token_views(self.tokens@),
                index: 0,
                ..old(self).model()
            }));
        }
    }

    /// The errors accumulated so far, in order.
    pub fn get_errors(&self) -> (r: &Vec<ParseError>)
        ensures
            r@ == self.errors_seq(),
            errors_view(r@) == self.model().errors,
    {
        &self.errors
    }

    /// The graph built so far.
    pub fn get_graph(&self) -> (r: &SyntaxGraph)
        ensures
            r@ == self.graph_model(),
    {
        &self.graph
    }

    /// Hands the built parts to the freeze step: the graph, the leaf content
    /// table, the rule-name table (name and id of every entry) and the class
    /// sampler.
    pub fn into_parts(self) -> (r: (SyntaxGraph, Vec<(u32, String)>, Vec<(String, u32)>, Regexer))
        requires
            self.wf(),
        ensures
            r.0@ == self.graph_model(),
            r.0@ == self.model().graph,
            weights_capped(r.0@),
            Seq::new(r.1@.len(), |i: int| (r.1@[i].0, r.1@[i].1@)) == self.prints_seq(),
            self.prints_seq() == self.model().charmap,
            r.2@.len() == self.names_seq().len(),
            forall|k: int|
                0 <= k < r.2@.len() ==> (#[trigger] r.2@[k]).0@ == self.names_seq()[k]@.0
                    && r.2@[k].1 == self.names_seq()[k]@.1,
            Seq::new(r.2@.len(), |i: int| (r.2@[i].0@, r.2@[i].1)) == names_pairs(
                self.model().names,
            ),
            r.3.wf(),
            r.3@ == self.classes_seq(),
            r.3@ == self.model().classes,
    {
        let mut name_map: Vec<(String, u32)> = Vec::new();
        let n = self.names.len();
        let mut i: usize = 0;
        while i < n
            invariant
                i <= n,
                n == self.names@.len(),
                name_map@.len() == i,
                forall|k: int|
                    0 <= k < i ==> (#[trigger] name_map@[k]).0@ == self.names@[k]@.0
                        && name_map@[k].1 == self.names@[k]@.1,
            decreases n - i,
        {
            let e = &self.names[i];
            name_map.push((e.name.clone(), e.id));
            i = i + 1;
        }
        proof {
            assert(Seq::new(self.charmap@.len(), |i: int| (self.charmap@[i].0, self.charmap@[i].1@))
                =~= self.prints_seq());
            assert(Seq::new(name_map@.len(), |i: int| (name_map@[i].0@, name_map@[i].1))
                =~= names_pairs(self.model().names));
        }
        (self.graph, self.charmap, name_map, self.regexhandler)
    }

    /// The next content id: one step down from the top of the id range.
    fn get_print_ptr(&mut self) -> (r: u32)
        ensures
            *final(self) == (Parser { print_ptr: final(self).print_ptr, ..*old(self) }),
            r == final(self).print_ptr,
            final(self).print_ptr == next_print_ptr(old(self).print_ptr),
    {
        if self.print_ptr > 0 {
            self.print_ptr = self.print_ptr - 1;
        }
        self.print_ptr
    }

    /// The next rule or control id: one step up.
    fn get_func_ptr(&mut self) -> (r: u32)
        ensures
            *final(self) == (Parser { func_ptr: final(self).func_ptr, ..*old(self) }),
            r == final(self).func_ptr,
            final(self).func_ptr == next_func_ptr(old(self).func_ptr),
    {
        if self.func_ptr < 4294967295 {
            self.func_ptr = self.func_ptr + 1;
        }
        self.func_ptr
    }

    /// The id of a rule name: its table entry's id, or a fresh id recorded
    /// as referenced-but-not-declared.
    fn get_index(&mut self, name: &String) -> (id: u32)
        requires
            old(self).wf(),
        ensures
            final(self).wf(),
            final(self).tokens@ == old(self).tokens@,
            final(self).errors@ == old(self).errors@,
            final(self).graph@ == old(self).graph@,
            final(self).charmap@ == old(self).charmap@,
            final(self).regexhandler == old(self).regexhandler,
            final(self).index == old(self).index,
            (match entry_idx_from(old(self).names@, name@, 0) {
                Some(j) => final(self).names@ == old(self).names@ && id == old(
                    self,
                ).names@[j]@.1,
                None => {
                    &&& final(self).names@.len() == old(self).names@.len() + 1
                    &&& seq_prefix(old(self).names@, final(self).names@)
                    &&& final(self).names@.last()@ == (name@, id, false)
                },
            }),
            ({
                let s = spec_get_index(old(self).model(), name@);
                id == s.0 && final(self).model() == s.1
            }),
    {
        proof {
            lemma_lookup_name_corresponds(self.names@, name@, 0);
        }
        let n = self.names.len();
        let mut i: usize = 0;
        while i < n
            invariant
                i <= n,
                old(self).wf(),
                *self == *old(self),
                n == self.names@.len(),
                entry_idx_from(self.names@, name@, 0) == entry_idx_from(
                    self.names@,
                    name@,
                    i as int,
                ),
            decreases n - i,
        {
            let e = &self.names[i];
            if e.name == *name {
                proof {
                    assert(self.names@[i as int]@.0 == name@);
                    assert(entry_idx_from(self.names@, name@, i as int) == Some(i as int));
                    lemma_lookup_name_corresponds(self.names@, name@, 0);
                    assert(self.model() == old(self).model());
                }
                return e.id;
            }
            i = i + 1;
        }
        let value = self.get_func_ptr();
        proof {
            lemma_entry_idx_from_sound(self.names@, name@, 0);
        }
        let ghost before = self.names@;
        let ghost m0 = old(self).model();
        self.names.push(NameEntry { name: name.clone(), id: value, declared: false });
        proof {
            assert(names_unique(self.names@)) by {
                assert(forall|k: int|
                    0 <= k < before.len() ==> (#[trigger] self.names@[k]) == before[k]);
                assert(self.names@[before.len() as int]@.0 == name@);
            }
            lemma_lookup_name_corresponds(before, name@, 0);
            let new_entry = self.names@.last();
            assert(self.names@ =~= before.push(new_entry));
            lemma_names_views_push(before, new_entry);
            assert(new_entry@ == (name@, value, false));
            assert(self.model().names =~= m0.names.push((name@, value, false)));
            assert(value == next_func_ptr(m0.func_ptr));
            assert(self.model() =~= spec_get_index(m0, name@).1);
        }
        value
    }

    /// Whether the current token is one of the expected kinds; a mismatch or
    /// an exhausted stream records the given error. The cursor advances past
    /// the inspected token either way.
    fn expect(&mut self, expected: TokenType, errmsg: ParseError) -> (failed: bool)
        requires
            old(self).wf(),
        ensures
            final(self).wf(),
            *final(self) == (Parser {
                index: final(self).index,
                errors: final(self).errors,
                ..*old(self)
            }),
            old(self).index < old(self).tokens@.len() ==> {
                &&& final(self).index == old(self).index + 1
                &&& (failed <==> old(self).tokens@[old(self).index as int].typ != expected)
                &&& (failed ==> final(self).errors@ == old(self).errors@.push(errmsg))
                &&& (!failed ==> final(self).errors@ == old(self).errors@)
            },
            old(self).index >= old(self).tokens@.len() ==> {
                &&& failed
                &&& final(self).index == old(self).index
                &&& final(self).errors@ == old(self).errors@.push(errmsg)
            },
    {
        if self.index >= self.tokens.len() {
            self.errors.push(errmsg);
            proof {
                lemma_id_spaces_same(old(self).model(), self.model());
            }
            return true;
        }
        let matches_tok = match (self.tokens[self.index].typ, expected) {
            (TokenType::Identifier, TokenType::Identifier) => true,
            (TokenType::Colon, TokenType::Colon) => true,
            (a, b) => a == b,
        };
        if !matches_tok {
            self.errors.push(errmsg);
            self.index = self.index + 1;
            proof {
                lemma_id_spaces_same(old(self).model(), self.model());
            }
            return true;
        }
        self.index = self.index + 1;
        proof {
            lemma_id_spaces_same(old(self).model(), self.model());
        }
        false
    }

    /// The weight of the annotation following the current term or operator:
    /// the annotation's value when one follows and reads as a non-negative
    /// numeral (the cursor then rests on the annotation), zero with an error
    /// for a negative value, and the default 0.5 otherwise — with an error
    /// when an annotation was there but unreadable.
    fn get_probability(&mut self) -> (r: u64)
        requires
            old(self).wf(),
        ensures
            final(self).wf(),
            r <= WEIGHT_MAX,
            *final(self) == (Parser {
                index: final(self).index,
                errors: final(self).errors,
                ..*old(self)
            }),
            ({
                let toks = old(self).tokens@;
                let i0 = old(self).index as int;
                if i0 + 1 < toks.len() && toks[i0 + 1].typ == TokenType::Probability {
                    let text = toks[i0 + 1].text@;
                    match prob_of(text) {
                        Some(v) => {
                            &&& r == v
                            &&& final(self).index == i0 + 1
                            &&& final(self).errors@ == old(self).errors@
                        },
                        None => {
                            if neg_prob(text) {
                                &&& r == 0
                                &&& final(self).index == i0 + 1
                                &&& final(self).errors@ == old(self).errors@.push(
                                    ParseError::NegativeProbability,
                                )
                            } else {
                                &&& r == 500000
                                &&& final(self).index == i0
                                &&& final(self).errors@ == old(self).errors@.push(
                                    ParseError::MalformedProbability,
                                )
                            }
                        },
                    }
                } else {
                    &&& r == 500000
                    &&& final(self).index == i0
                    &&& final(self).errors@ == old(self).errors@
                }
            }),
            ({
                let s = spec_get_probability(old(self).model());
                r == s.0 && final(self).model() == s.1
            }),
    {
        let ghost m0 = self.model();
        if self.tokens.len() > 0 && self.index < self.tokens.len() - 1 && (match self.tokens[self.index
            + 1].typ {
            TokenType::Probability => true,
            _ => false,
        }) {
            self.index = self.index + 1;
            let num = &self.tokens[self.index];
            proof {
                assert(m0.toks[m0.index + 1].2 == num.text@);
            }
            match parse_probability_text(num.text.as_str()) {
                Some(v) => {
                    proof {
                        assert(self.model() =~= (ParserModel { index: m0.index + 1, ..m0 }));
                    }
                    return v;
                },
                None => {
                    let cs = chars_of(num.text.as_str());
                    let is_neg = cs.len() > 0 && cs[0] == '-' && {
                        let rest = num.text.as_str().substring_char(1, cs.len());
                        proof {
                            assert(rest@ =~= num.text@.subrange(1, num.text@.len() as int));
                        }
                        parse_probability_text(rest).is_some()
                    };
                    if is_neg {
                        proof {
                            lemma_errors_view_push(
                                self.errors@,
                                ParseError::NegativeProbability,
                            );
                        }
                        self.errors.push(ParseError::NegativeProbability);
                        proof {
                            assert(self.model() =~= (ParserModel {
                                index: m0.index + 1,
                                errors: m0.errors.push(ErrorModel::NegativeProbability),
                                ..m0
                            }));
                        }
                        return 0;
                    }
                    self.index = self.index - 1;
                    proof {
                        lemma_errors_view_push(self.errors@, ParseError::MalformedProbability);
                    }
                    self.errors.push(ParseError::MalformedProbability);
                    proof {
                        assert(self.model() =~= (ParserModel {
                            errors: m0.errors.push(ErrorModel::MalformedProbability),
                            ..m0
                        }));
                    }
                    return 500000;
                },
            }
        }
        proof {
            assert(self.model() == m0);
        }
        500000
    }
}


/// The strings inside undefined-reference errors, in order.
pub open spec fn undef_views(es: Seq<ParseError>) -> Seq<Seq<char>> {
    es.map(|i: int, e: ParseError| e->UndefinedReference_0@)
}

proof fn lemma_undef_views_push(es: Seq<ParseError>, e: ParseError)
    ensures
        undef_views(es.push(e)) =~= undef_views(es).push(e->UndefinedReference_0@),
{
}

impl Parser {
    /// Marks the entry with the given name declared; answers whether it
    /// already was.
    fn mark_declared(&mut self, name: &String) -> (was: bool)
        requires
            old(self).wf(),
        ensures
            final(self).wf(),
            *final(self) == (Parser { names: final(self).names, ..*old(self) }),
            final(self).names@.len() == old(self).names@.len(),
            (match entry_idx_from(old(self).names@, name@, 0) {
                Some(j) => {
                    &&& was == old(self).names@[j]@.2
                    &&& final(self).names@[j]@ == (name@, old(self).names@[j]@.1, true)
                    &&& (forall|k: int|
                        0 <= k < old(self).names@.len() && k != j ==> final(self).names@[k]
                            == old(self).names@[k])
                },
                None => !was && final(self).names@ == old(self).names@,
            }),
            ({
                let s = spec_mark_declared(old(self).model(), name@);
                was == s.0 && final(self).model() == s.1
            }),
    {
        proof {
            lemma_lookup_name_corresponds(self.names@, name@, 0);
        }
        let n = self.names.len();
        let mut i: usize = 0;
        while i < n
            invariant
                i <= n,
                old(self).wf(),
                *self == (Parser { names: self.names, ..*old(self) }),
                self.names@ == old(self).names@,
                n == self.names@.len(),
                entry_idx_from(self.names@, name@, 0) == entry_idx_from(
                    self.names@,
                    name@,
                    i as int,
                ),
            decreases n - i,
        {
            let e = &self.names[i];
            if e.name == *name {
                proof {
                    assert(entry_idx_from(self.names@, name@, i as int) == Some(i as int));
                }
                let was = self.names[i].declared;
                let nm = &mut self.names[i];
                nm.declared = true;
                proof {
                    assert(self.names@[i as int]@ == (name@, old(self).names@[i as int]@.1, true));
                    assert(names_unique(self.names@)) by {
                        assert(forall|k: int|
                            0 <= k < self.names@.len() ==> (#[trigger] self.names@[k])@.0 == old(
                                self,
                            ).names@[k]@.0);
                    }
                    lemma_lookup_name_corresponds(old(self).names@, name@, 0);
                    let m0 = old(self).model();
                    assert(self.model().names =~= m0.names.update(
                        i as int,
                        (m0.names[i as int].0, m0.names[i as int].1, true),
                    ));
                    assert(self.model() =~= spec_mark_declared(m0, name@).1);
                }
                return was;
            }
            i = i + 1;
        }
        proof {
            lemma_lookup_name_corresponds(old(self).names@, name@, 0);
            assert(self.model() == old(self).model());
        }
        false
    }

    /// Parses one `Name : Body ;` statement: declares the rule, wires the
    /// global start node to its header, and hands the body to
    /// [`Parser::parse_rules`]. Always consumes at least one token.
    fn parse_subject(&mut self)
        requires
            old(self).wf(),
            old(self).index < old(self).tokens@.len(),
        ensures
            final(self).wf(),
            final(self).tokens@ == old(self).tokens@,
            old(self).index < final(self).index,
            final(self).index <= final(self).tokens@.len(),
            final(self).errors@.len() >= old(self).errors@.len(),
            seq_prefix(old(self).errors@, final(self).errors@),
            crate::graph::graph_extends(old(self).graph@, final(self).graph@),
            ({
                let toks = old(self).tokens@;
                let i0 = old(self).index as int;
                let errs0 = old(self).errors@;
                let head_ok = toks[i0].typ == TokenType::Identifier;
                &&& (!head_ok ==> final(self).errors@ == errs0.push(ParseError::ExpectedSubject)
                    && final(self).index == i0 + 1)
                &&& (head_ok && i0 + 1 < toks.len() && toks[i0 + 1].typ != TokenType::Colon
                    ==> final(self).errors@ == errs0.push(ParseError::ExpectedColon)
                    && final(self).index == i0 + 2)
                &&& (head_ok && i0 + 1 >= toks.len() ==> final(self).errors@ == errs0.push(
                    ParseError::ExpectedColon,
                ) && final(self).index == i0 + 1)
            }),
            ({
                let toks = old(self).tokens@;
                let i0 = old(self).index as int;
                let errs0 = old(self).errors@;
                let name = toks[i0].text@;
                let declared_before = match entry_idx_from(old(self).names@, name, 0) {
                    Some(j) => old(self).names@[j]@.2,
                    None => false,
                };
                (toks[i0].typ == TokenType::Identifier && i0 + 1 < toks.len() && toks[i0
                    + 1].typ == TokenType::Colon && declared_before) ==> {
                    &&& final(self).errors@.len() > errs0.len()
                    &&& (final(self).errors@[errs0.len() as int] is MultipleDefinition)
                    &&& final(self).errors@[errs0.len() as int]->MultipleDefinition_0@ == name
                }
            }),
            final(self).model() == spec_parse_subject(old(self).model()),
    {
        let ghost m0 = self.model();
        let ghost i0 = self.index as int;
        let subject_text = self.tokens[self.index].text.clone();
        proof {
            assert(subject_text@ == m0.toks[i0].2);
        }
        if self.expect(TokenType::Identifier, ParseError::ExpectedSubject) {
            proof {
                lemma_errors_view_push(old(self).errors@, ParseError::ExpectedSubject);
                assert(self.model() =~= (ParserModel {
                    index: i0 + 1,
                    errors: m0.errors.push(ErrorModel::ExpectedSubject),
                    ..m0
                }));
            }
            return;
        }
        let ghost mh = self.model();
        proof {
            assert(mh =~= (ParserModel { index: i0 + 1, ..m0 }));
        }
        if self.expect(TokenType::Colon, ParseError::ExpectedColon) {
            proof {
                lemma_errors_view_push(old(self).errors@, ParseError::ExpectedColon);
                if i0 + 1 < m0.toks.len() {
                    assert(self.model() =~= (ParserModel {
                        index: i0 + 2,
                        errors: m0.errors.push(ErrorModel::ExpectedColon),
                        ..m0
                    }));
                } else {
                    assert(self.model() =~= (ParserModel {
                        index: i0 + 1,
                        errors: m0.errors.push(ErrorModel::ExpectedColon),
                        ..m0
                    }));
                }
            }
            return;
        }
        let ghost m1 = self.model();
        proof {
            assert(m1 =~= (ParserModel { index: i0 + 2, ..m0 }));
        }
        let id = self.get_index(&subject_text);
        let ghost gi = spec_get_index(m1, m0.toks[i0].2);
        let already = self.mark_declared(&subject_text);
        let ghost md = spec_mark_declared(gi.1, m0.toks[i0].2);
        proof {
            assert(id == gi.0 && already == md.0 && self.model() == md.1);
        }
        if already {
            proof {
                lemma_errors_view_push(self.errors@, ParseError::MultipleDefinition(subject_text));
            }
            let ghost me = self.model();
            self.errors.push(ParseError::MultipleDefinition(subject_text));
            proof {
                assert(self.model() =~= (ParserModel {
                    errors: me.errors.push(ErrorModel::MultipleDefinition(m0.toks[i0].2)),
                    ..me
                }));
            }
        }
        let ghost m4 = self.model();
        let start_idx = self.graph.force_get_node(START_ID, NodeType::START);
        let ghost fs = spec_force_get(m4.graph, START_ID, NodeType::START);
        let _header_idx = self.graph.force_get_node(id, NodeType::HEADER);
        let ghost fh = spec_force_get(fs.1, id, NodeType::HEADER);
        self.graph.add_edge(start_idx, id, SCALE);
        let ghost m7 = self.model();
        proof {
            assert(start_idx as int == fs.0);
            assert(m7 =~= (ParserModel {
                graph: spec_add_edge(fh.1, fs.0, gi.0, SCALE),
                ..m4
            }));
        }
        self.parse_rules(id, false);
        proof {
            assert(self.model() == spec_parse_rules(m7, gi.0, false).0);
        }
    }

    /// Parses a rule body (or, when `is_deep`, a parenthesized group with
    /// its own pseudo end node), wiring terms, alternatives and quantifier
    /// edges into the graph; returns the group's entry and exit arena slots
    /// when a group closes. The state afterwards and the returned slots are
    /// exactly [`spec_parse_rules`] of the state before.
    #[verifier::rlimit(100)]
    #[verifier::spinoff_prover]
    fn parse_rules(&mut self, root: u32, is_deep: bool) -> (r: (Option<usize>, Option<usize>))
        requires
            old(self).wf(),
        ensures
            final(self).wf(),
            final(self).tokens@ == old(self).tokens@,
            old(self).index <= final(self).index,
            final(self).index <= final(self).tokens@.len(),
            final(self).errors@.len() >= old(self).errors@.len(),
            seq_prefix(old(self).errors@, final(self).errors@),
            old(self).graph@.len() <= final(self).graph@.len(),
            crate::graph::graph_extends(old(self).graph@, final(self).graph@),
            (match r.0 {
                Some(s) => s < final(self).graph@.len(),
                None => true,
            }),
            (match r.1 {
                Some(b) => b < final(self).graph@.len(),
                None => true,
            }),
            ({
                let s = spec_parse_rules(old(self).model(), root, is_deep);
                &&& final(self).model() == s.0
                &&& opt_int(r.0) == s.1
                &&& opt_int(r.1) == s.2
            }),
        decreases old(self).tokens@.len() - old(self).index,
    {
        let ghost m0 = self.model();
        let root_idx = self.graph.force_get_node(root, NodeType::IDK);
        let ghost r0 = spec_force_get(m0.graph, root, NodeType::IDK);
        proof {
            assert(root_idx as int == r0.0 && self.graph@ == r0.1);
        }
        let mut end_id: u32 = END_ID;
        let mut end_idx = self.graph.force_get_node(END_ID, NodeType::END);
        let ghost r1 = spec_force_get(r0.1, END_ID, NodeType::END);
        proof {
            assert(end_idx as int == r1.0 && self.graph@ == r1.1);
        }
        if is_deep {
            // a bracketed group gets an isolated pseudo end node
            let pid = self.get_func_ptr();
            end_id = pid;
            end_idx = self.graph.force_get_node(pid, NodeType::END);
            proof {
                let r2 = spec_force_get(r1.1, next_func_ptr(m0.func_ptr), NodeType::END);
                assert(end_idx as int == r2.0 && self.graph@ == r2.1);
                assert(self.model() =~= (ParserModel {
                    func_ptr: next_func_ptr(m0.func_ptr),
                    graph: r2.1,
                    ..m0
                }));
            }
        } else {
            proof {
                assert(self.model() =~= (ParserModel { graph: r1.1, ..m0 }));
            }
        }
        let mut buffer_idx = root_idx;
        let mut start_buffer: Option<usize> = None;
        proof {
            assert(spec_parse_rules(m0, root, is_deep) == spec_rules_loop(
                self.model(),
                root_idx as int,
                end_id,
                end_idx as int,
                buffer_idx as int,
                opt_int(start_buffer),
                is_deep,
            ));
        }
        loop
            invariant
                self.wf(),
                old(self).wf(),
                self.tokens@ == old(self).tokens@,
                m0 == old(self).model(),
                self.model().toks == m0.toks,
                old(self).index <= self.index,
                self.index <= self.tokens@.len(),
                self.errors@.len() >= old(self).errors@.len(),
                seq_prefix(old(self).errors@, self.errors@),
                old(self).graph@.len() <= self.graph@.len(),
                crate::graph::graph_extends(old(self).graph@, self.graph@),
                buffer_idx < self.graph@.len(),
                end_idx < self.graph@.len(),
                root_idx < self.graph@.len(),
                (match start_buffer {
                    Some(sb) => sb < self.graph@.len(),
                    None => true,
                }),
                spec_parse_rules(m0, root, is_deep) == spec_rules_loop(
                    self.model(),
                    root_idx as int,
                    end_id,
                    end_idx as int,
                    buffer_idx as int,
                    opt_int(start_buffer),
                    is_deep,
                ),
            ensures
                self.wf(),
                self.tokens@ == old(self).tokens@,
                old(self).index <= self.index,
                self.index >= self.tokens@.len(),
                self.index <= self.tokens@.len(),
                self.errors@.len() >= old(self).errors@.len(),
                seq_prefix(old(self).errors@, self.errors@),
                old(self).graph@.len() <= self.graph@.len(),
                crate::graph::graph_extends(old(self).graph@, self.graph@),
                buffer_idx < self.graph@.len(),
                (match start_buffer {
                    Some(sb) => sb < self.graph@.len(),
                    None => true,
                }),
                spec_parse_rules(m0, root, is_deep) == spec_rules_loop(
                    self.model(),
                    root_idx as int,
                    end_id,
                    end_idx as int,
                    buffer_idx as int,
                    opt_int(start_buffer),
                    is_deep,
                ),
            decreases self.tokens@.len() - self.index,
        {
            if self.index >= self.tokens.len() {
                break;
            }
            let ghost mi = self.model();
            let ghost i0 = self.index as int;
            let ghost bi = buffer_idx as int;
            let ghost sbo = opt_int(start_buffer);
            let ghost ri = root_idx as int;
            let ghost ei = end_idx as int;
            let typ = self.tokens[self.index].typ;
            proof {
                assert(mi.toks[i0].1 == typ);
            }
            match typ {
                TokenType::Identifier => {
                    // a reference to another rule: a call/return pair
                    let text = self.tokens[self.index].text.clone();
                    proof {
                        assert(text@ == mi.toks[i0].2);
                    }
                    let pointer_id = self.get_index(&text);
                    let ghost gi = spec_get_index(mi, mi.toks[i0].2);
                    let func_ptr = self.get_func_ptr();
                    let ghost m2 = self.model();
                    proof {
                        assert(pointer_id == gi.0);
                        assert(m2 =~= (ParserModel { func_ptr: next_func_ptr(gi.1.func_ptr), ..gi.1 }));
                    }
                    let node_idx = self.graph.force_get_node(func_ptr, NodeType::POINTER);
                    let ghost fg = spec_force_get(m2.graph, func_ptr, NodeType::POINTER);
                    self.graph.set_pointer(node_idx, pointer_id);
                    let ghost m4 = self.model();
                    proof {
                        assert(node_idx as int == fg.0);
                        assert(m4 =~= (ParserModel {
                            graph: spec_set_pointer(fg.1, fg.0, gi.0),
                            ..m2
                        }));
                    }
                    let p = self.get_probability();
                    let ghost gp = spec_get_probability(m4);
                    self.graph.add_edge(buffer_idx, func_ptr, p);
                    let ghost m6 = self.model();
                    proof {
                        assert(p == gp.0);
                        assert(m6 =~= (ParserModel {
                            graph: spec_add_edge(gp.1.graph, bi, func_ptr, gp.0),
                            ..gp.1
                        }));
                    }
                    let jump_id = self.get_func_ptr();
                    let jump_idx = self.graph.force_get_node(jump_id, NodeType::JUMP);
                    let ghost fj = spec_force_get(m6.graph, next_func_ptr(m6.func_ptr), NodeType::JUMP);
                    self.graph.add_edge(node_idx, jump_id, SCALE);
                    proof {
                        assert(jump_id == next_func_ptr(m6.func_ptr));
                        assert(jump_idx as int == fj.0);
                        assert(self.model() =~= (ParserModel {
                            func_ptr: jump_id,
                            graph: spec_add_edge(fj.1, fg.0, jump_id, SCALE),
                            ..m6
                        }));
                    }
                    start_buffer = Some(buffer_idx);
                    buffer_idx = jump_idx;
                },
                TokenType::Character | TokenType::Regex => {
                    // a leaf emitting text, followed by its sequencing jump
                    let index_id = self.get_print_ptr();
                    let text = self.tokens[self.index].text.clone();
                    let is_class = match typ {
                        TokenType::Regex => true,
                        _ => false,
                    };
                    proof {
                        assert(text@ == mi.toks[i0].2);
                        assert(index_id == next_print_ptr(mi.print_ptr));
                        lemma_prints_view_push(self.charmap@, (index_id, text));
                    }
                    self.charmap.push((index_id, text.clone()));
                    let ghost m1 = self.model();
                    proof {
                        assert(m1 =~= (ParserModel {
                            print_ptr: index_id,
                            charmap: mi.charmap.push((index_id, mi.toks[i0].2)),
                            ..mi
                        }));
                    }
                    let leaf_idx = if is_class {
                        let li = self.graph.force_get_node(index_id, NodeType::RX);
                        self.regexhandler.cache_regex(text.as_str());
                        li
                    } else {
                        self.graph.force_get_node(index_id, NodeType::CH)
                    };
                    let ghost fg = if is_class {
                        spec_force_get(m1.graph, index_id, NodeType::RX)
                    } else {
                        spec_force_get(m1.graph, index_id, NodeType::CH)
                    };
                    let ghost classes1 = if is_class {
                        if has_pattern(m1.classes, mi.toks[i0].2) {
                            m1.classes
                        } else {
                            m1.classes.push(mi.toks[i0].2)
                        }
                    } else {
                        m1.classes
                    };
                    let ghost m3 = self.model();
                    proof {
                        assert(leaf_idx as int == fg.0);
                        assert(m3 =~= (ParserModel { graph: fg.1, classes: classes1, ..m1 }));
                    }
                    let p = self.get_probability();
                    let ghost gp = spec_get_probability(m3);
                    self.graph.add_edge(buffer_idx, index_id, p);
                    let ghost m5 = self.model();
                    proof {
                        assert(p == gp.0);
                        assert(m5 =~= (ParserModel {
                            graph: spec_add_edge(gp.1.graph, bi, index_id, gp.0),
                            ..gp.1
                        }));
                    }
                    let jump_id = self.get_func_ptr();
                    let jump_idx = self.graph.force_get_node(jump_id, NodeType::JUMP);
                    let ghost fj = spec_force_get(m5.graph, next_func_ptr(m5.func_ptr), NodeType::JUMP);
                    self.graph.add_edge(leaf_idx, jump_id, SCALE);
                    proof {
                        assert(jump_id == next_func_ptr(m5.func_ptr));
                        assert(jump_idx as int == fj.0);
                        assert(self.model() =~= (ParserModel {
                            func_ptr: jump_id,
                            graph: spec_add_edge(fj.1, fg.0, jump_id, SCALE),
                            ..m5
                        }));
                    }
                    start_buffer = Some(buffer_idx);
                    buffer_idx = jump_idx;
                },
                TokenType::Colon => {
                    // a second ':' before the statement's ';'
                    proof {
                        lemma_errors_view_push(self.errors@, ParseError::MissingSemicolon);
                    }
                    self.errors.push(ParseError::MissingSemicolon);
                    proof {
                        assert(self.model() =~= (ParserModel {
                            errors: mi.errors.push(ErrorModel::MissingSemicolon),
                            ..mi
                        }));
                    }
                    return (None, None);
                },
                TokenType::Maybe => {
                    if let Some(sb) = start_buffer {
                        let p = self.get_probability();
                        let ghost gp = spec_get_probability(mi);
                        let w: u64 = if p > SCALE {
                            0
                        } else {
                            SCALE - p
                        };
                        let bid = self.graph.node_at(buffer_idx).id;
                        self.graph.add_edge(sb, bid, w);
                        proof {
                            assert(p == gp.0);
                            assert(bid == gp.1.graph[bi].id);
                            assert(self.model() =~= (ParserModel {
                                graph: spec_add_edge(gp.1.graph, sb as int, bid, w),
                                ..gp.1
                            }));
                        }
                    }
                },
                TokenType::OneOrMore => {
                    if let Some(sb) = start_buffer {
                        let p = self.get_probability();
                        let ghost gp = spec_get_probability(mi);
                        let sbid = self.graph.node_at(sb).id;
                        self.graph.add_edge(buffer_idx, sbid, p);
                        proof {
                            assert(p == gp.0);
                            assert(sbid == gp.1.graph[sb as int].id);
                            assert(self.model() =~= (ParserModel {
                                graph: spec_add_edge(gp.1.graph, bi, sbid, gp.0),
                                ..gp.1
                            }));
                        }
                    }
                },
                TokenType::AnyNo => {
                    if let Some(sb) = start_buffer {
                        let p = self.get_probability();
                        let ghost gp = spec_get_probability(mi);
                        let w: u64 = if p > SCALE {
                            0
                        } else {
                            SCALE - p
                        };
                        let bid = self.graph.node_at(buffer_idx).id;
                        self.graph.add_edge(sb, bid, w);
                        let ghost g1 = spec_add_edge(gp.1.graph, sb as int, bid, w);
                        let sbid = self.graph.node_at(sb).id;
                        self.graph.add_edge(buffer_idx, sbid, p);
                        proof {
                            assert(p == gp.0);
                            assert(bid == gp.1.graph[bi].id);
                            assert(sbid == g1[sb as int].id);
                            assert(self.model() =~= (ParserModel {
                                graph: spec_add_edge(g1, bi, sbid, gp.0),
                                ..gp.1
                            }));
                        }
                    }
                },
                TokenType::Alternative => {
                    // close this alternative toward the end node and start
                    // the next one back at the rule's root
                    let p = self.get_probability();
                    let ghost gp = spec_get_probability(mi);
                    self.graph.add_edge(buffer_idx, end_id, p);
                    proof {
                        assert(p == gp.0);
                        assert(self.model() =~= (ParserModel {
                            graph: spec_add_edge(gp.1.graph, bi, end_id, gp.0),
                            ..gp.1
                        }));
                    }
                    buffer_idx = root_idx;
                    start_buffer = None;
                },
                TokenType::Padding => {
                    self.graph.add_edge(buffer_idx, end_id, SCALE);
                    if is_deep {
                        proof {
                            lemma_errors_view_push(self.errors@, ParseError::StrayOpen);
                        }
                        self.errors.push(ParseError::StrayOpen);
                    }
                    self.index = self.index + 1;
                    proof {
                        assert(self.model() =~= (ParserModel {
                            graph: spec_add_edge(mi.graph, bi, end_id, SCALE),
                            errors: if is_deep {
                                mi.errors.push(ErrorModel::StrayOpen)
                            } else {
                                mi.errors
                            },
                            index: i0 + 1,
                            ..mi
                        }));
                    }
                    return (None, None);
                },
                TokenType::BracOpen => {
                    self.index = self.index + 1;
                    let bid = self.graph.node_at(buffer_idx).id;
                    proof {
                        assert(bid == mi.graph[bi].id);
                        assert(self.model() =~= (ParserModel { index: i0 + 1, ..mi }));
                    }
                    let group = self.parse_rules(bid, true);
                    let ghost sgroup = spec_parse_rules(
                        ParserModel { index: i0 + 1, ..mi },
                        bid,
                        true,
                    );
                    proof {
                        assert(self.model() == sgroup.0);
                        assert(opt_int(group.0) == sgroup.1);
                        assert(opt_int(group.1) == sgroup.2);
                    }
                    start_buffer = group.0;
                    if let Some(bn) = group.1 {
                        buffer_idx = bn;
                    }
                },
                TokenType::BracClose => {
                    if is_deep {
                        self.graph.add_edge(buffer_idx, end_id, SCALE);
                        proof {
                            assert(self.model() =~= (ParserModel {
                                graph: spec_add_edge(mi.graph, bi, end_id, SCALE),
                                ..mi
                            }));
                        }
                        return (Some(root_idx), Some(end_idx));
                    }
                    proof {
                        lemma_errors_view_push(self.errors@, ParseError::StrayClose);
                    }
                    self.errors.push(ParseError::StrayClose);
                    proof {
                        assert(self.model() =~= (ParserModel {
                            errors: mi.errors.push(ErrorModel::StrayClose),
                            ..mi
                        }));
                    }
                },
                TokenType::Infinite => {
                    if let Some(sb) = start_buffer {
                        let sbid = self.graph.node_at(sb).id;
                        self.graph.add_edge(end_idx, sbid, SCALE);
                        proof {
                            assert(sbid == mi.graph[sb as int].id);
                            assert(self.model() =~= (ParserModel {
                                graph: spec_add_edge(mi.graph, ei, sbid, SCALE),
                                ..mi
                            }));
                        }
                    }
                },
                TokenType::Probability => {
                    // a stray annotation with nothing before it: skipped,
                    // like any other unattached token
                },
            }
            let ghost m_after_arm = self.model();
            if self.index < self.tokens.len() {
                self.index = self.index + 1;
            }
            proof {
                assert(self.model() =~= loop_continue(m_after_arm, i0));
                assert(spec_rules_loop(mi, ri, end_id, ei, bi, sbo, is_deep) == spec_rules_loop(
                    self.model(),
                    root_idx as int,
                    end_id,
                    end_idx as int,
                    buffer_idx as int,
                    opt_int(start_buffer),
                    is_deep,
                ));
            }
        }
        // the token stream ended before this statement saw its terminator
        let ghost m_exit = self.model();
        proof {
            lemma_errors_view_push(self.errors@, ParseError::MissingSemicolon);
        }
        self.errors.push(ParseError::MissingSemicolon);
        proof {
            assert(self.model() =~= (ParserModel {
                errors: m_exit.errors.push(ErrorModel::MissingSemicolon),
                ..m_exit
            }));
        }
        (start_buffer, Some(buffer_idx))
    }

    /// Parses the whole token stream, one statement at a time, halting at
    /// the first statement that left errors; on success the stream is
    /// consumed completely.
    pub fn parse_grammar(&mut self)
        requires
            old(self).wf(),
        ensures
            final(self).wf(),
            final(self).tokens_seq() == old(self).tokens_seq(),
            final(self).errors_seq().len() >= old(self).errors_seq().len(),
            seq_prefix(old(self).errors_seq(), final(self).errors_seq()),
            final(self).errors_seq().len() == 0 ==> final(self).index_val() == final(self).tokens_seq().len(),
            crate::graph::graph_extends(old(self).graph_model(), final(self).graph_model()),
            final(self).model() == spec_parse_grammar_from(old(self).model()),
    {
        let ghost m0 = self.model();
        while self.index < self.tokens.len()
            invariant_except_break
                spec_parse_grammar_from(m0) == spec_parse_grammar_from(self.model()),
            invariant
                self.wf(),
                m0 == old(self).model(),
                self.tokens@ == old(self).tokens@,
                self.errors@.len() >= old(self).errors@.len(),
                seq_prefix(old(self).errors@, self.errors@),
                crate::graph::graph_extends(old(self).graph@, self.graph@),
            ensures
                self.wf(),
                self.tokens@ == old(self).tokens@,
                self.errors@.len() >= old(self).errors@.len(),
                seq_prefix(old(self).errors@, self.errors@),
                crate::graph::graph_extends(old(self).graph@, self.graph@),
                self.index >= self.tokens@.len() || self.errors@.len() > 0,
                self.model() == spec_parse_grammar_from(m0),
            decreases self.tokens@.len() - self.index,
        {
            let ghost mi = self.model();
            self.parse_subject();
            if self.errors.len() > 0 {
                proof {
                    assert(self.model().errors.len() > 0);
                    assert(spec_parse_grammar_from(mi) == self.model());
                }
                break;
            }
            proof {
                assert(self.model().errors.len() == 0);
                assert(grammar_continue(spec_parse_subject(mi), mi) =~= self.model());
                assert(spec_parse_grammar_from(mi) == spec_parse_grammar_from(self.model()));
            }
        }
    }

    /// Rule identifiers are unique: distinct rule names get distinct ids,
    /// and the ascending rule/control-id space stays disjoint from the
    /// descending content-id space, as long as the two counters have not
    /// met — which would take about 2^32 allocations; at their ends of the
    /// range the counters hold rather than wrap, so the guard never
    /// resurrects once the spaces could collide.
    pub proof fn lemma_id_spaces_disjoint(self)
        requires
            self.wf(),
            self.model().func_ptr < self.model().print_ptr,
        ensures
            forall|j: int, k: int|
                0 <= j < k < self.model().names.len() ==> (#[trigger] self.model().names[j]).1
                    != (#[trigger] self.model().names[k]).1,
            forall|j: int, k: int|
                0 <= j < self.model().names.len() && 0 <= k < self.model().charmap.len() ==> (
                #[trigger] self.model().names[j]).1 != (#[trigger] self.model().charmap[k]).0,
    {
        assert forall|j: int, k: int|
            0 <= j < self.model().names.len() && 0 <= k
                < self.model().charmap.len() implies (#[trigger] self.model().names[j]).1 != (
        #[trigger] self.model().charmap[k]).0 by {
            assert(self.model().names[j].1 <= self.model().func_ptr);
            assert(self.model().print_ptr <= self.model().charmap[k].0);
        }
    }

    /// A fresh error equal in content to the given one.
    pub fn copy_error(e: &ParseError) -> (r: ParseError)
        ensures
            err_view(r) == err_view(*e),
    {
        match e {
            ParseError::ExpectedSubject => ParseError::ExpectedSubject,
            ParseError::ExpectedColon => ParseError::ExpectedColon,
            ParseError::MissingSemicolon => ParseError::MissingSemicolon,
            ParseError::StrayOpen => ParseError::StrayOpen,
            ParseError::StrayClose => ParseError::StrayClose,
            ParseError::MultipleDefinition(n) => ParseError::MultipleDefinition(n.clone()),
            ParseError::UndefinedReference(n) => ParseError::UndefinedReference(n.clone()),
            ParseError::NegativeProbability => ParseError::NegativeProbability,
            ParseError::MalformedProbability => ParseError::MalformedProbability,
        }
    }

    /// The undefined-reference check, run as one pass over the name table
    /// after the whole program parses, independent of any syntax errors: one
    /// error per rule name that was referenced but never declared, in table
    /// order.
    pub fn validate_graph(&self) -> (r: Vec<ParseError>)
        ensures
            undef_views(r@) == undeclared_from(self.names_seq(), 0),
            undef_views(r@) == undeclared_v(self.model().names, 0),
            forall|k: int| 0 <= k < r@.len() ==> (#[trigger] r@[k]) is UndefinedReference,
            r@.len() == undeclared_from(self.names_seq(), 0).len(),
    {
        proof {
            lemma_undeclared_corresponds(self.names@, 0);
        }
        let mut errors: Vec<ParseError> = Vec::new();
        let n = self.names.len();
        let mut i: usize = 0;
        while i < n
            invariant
                i <= n,
                n == self.names@.len(),
                undeclared_from(self.names@, 0) =~= undef_views(errors@) + undeclared_from(
                    self.names@,
                    i as int,
                ),
                forall|k: int| 0 <= k < errors@.len() ==> (#[trigger] errors@[k])
                    is UndefinedReference,
            decreases n - i,
        {
            let e = &self.names[i];
            if !e.declared {
                let err = ParseError::UndefinedReference(e.name.clone());
                proof {
                    lemma_undef_views_push(errors@, err);
                }
                errors.push(err);
            }
            i = i + 1;
            proof {
                assert(undeclared_from(self.names@, 0) =~= undef_views(errors@)
                    + undeclared_from(self.names@, i as int));
            }
        }
        proof {
            assert(undef_views(errors@) =~= undeclared_from(self.names@, 0));
        }
        errors
    }
}

} // verus!
