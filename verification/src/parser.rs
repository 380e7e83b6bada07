//! The assembler front-end: a line-oriented mnemonic language parsed into
//! typed instructions, and an encoder from those instructions into the
//! engine's byte format.
//!
//! Grammar (keywords are case-insensitive, separators are runs of spaces or
//! tabs):
//!
//! ```text
//! instruction := mnemonic SP operand SP operand [SP]
//! mnemonic    := "mov" | "add" | "sub" | "mul"
//! operand     := register | literal
//! register    := reg8 | reg16        reg8:  ah al bh bl ch cl dh dl
//!                                    reg16: ax bx cx dx ex fx gx hx acc
//! literal     := "0o" oct_digits | "0x" hex_digits | dec_digits
//! ```
//!
//! A literal tries the octal-prefixed, then the hex-prefixed, then the plain
//! decimal form, in that order; a register operand resolves to its position
//! in the assembler's canonical register-name table
//! `[ah al ax bh bl bx ch cl cx dh dl dx ex fx gx hx acc]` and keeps its
//! original spelling for diagnostics. A literal that does not fit 16 bits is
//! reported as `LiteralOverflow`, never a panic.

use vstd::prelude::*;

use crate::isa::{ADD_REG_REG, END, MOV_LIT_REG};
use crate::memory::{hi_byte, lo_byte};

verus! {

// ---------------------------------------------------------------------------
// Character classes and scanning
// ---------------------------------------------------------------------------

/// The character classes the grammar scans runs of.
#[derive(Debug, PartialEq, Eq, Structural, Clone, Copy)]
pub enum CharClass {
    Space,
    Dec,
    Hex,
    Oct,
}

/// Whether `c` belongs to class `k`. Spaces are blanks and tabs; the digit
/// classes are the usual ASCII digit sets (hex accepts both letter cases).
pub open spec fn class_pred(k: CharClass, c: char) -> bool {
    let u = c as int;
    match k {
        CharClass::Space => c == ' ' || c == '\t',
        CharClass::Dec => 48 <= u && u <= 57,
        CharClass::Hex => (48 <= u && u <= 57) || (97 <= u && u <= 102) || (65 <= u && u <= 70),
        CharClass::Oct => 48 <= u && u <= 55,
    }
}

/// The number of leading characters of `s` that belong to class `k`.
pub open spec fn leading_count(s: Seq<char>, k: CharClass) -> int
    decreases s.len(),
{
    if s.len() > 0 && class_pred(k, s[0]) {
        1 + leading_count(s.skip(1), k)
    } else {
        0
    }
}

/// The leading run is a well-formed prefix: within bounds, all its characters
/// belong to the class, and it stops at the end or at the first outsider.
pub proof fn lemma_leading_count_props(s: Seq<char>, k: CharClass)
    ensures
        0 <= leading_count(s, k) <= s.len(),
        forall|j: int| 0 <= j < leading_count(s, k) ==> class_pred(k, s[j]),
        leading_count(s, k) < s.len() ==> !class_pred(k, s[leading_count(s, k)]),
    decreases s.len(),
{
    if s.len() > 0 && class_pred(k, s[0]) {
        lemma_leading_count_props(s.skip(1), k);
        assert forall|j: int| 0 <= j < leading_count(s, k) implies class_pred(k, s[j]) by {
            if j > 0 {
                assert(class_pred(k, s.skip(1)[j - 1]));
            }
        }
    }
}

/// A scan that saw `n` class characters and then stopped (at the end or at an
/// outsider) saw exactly the leading run.
pub proof fn lemma_leading_count_is(s: Seq<char>, k: CharClass, n: int)
    requires
        0 <= n <= s.len(),
        forall|j: int| 0 <= j < n ==> class_pred(k, s[j]),
        n == s.len() || !class_pred(k, s[n]),
    ensures
        leading_count(s, k) == n,
    decreases n,
{
    if n == 0 {
    } else {
        lemma_leading_count_is(s.skip(1), k, n - 1);
    }
}

/// Whether `c` belongs to class `k`.
pub fn char_in_class(c: char, k: CharClass) -> (r: bool)
    ensures
        r == class_pred(k, c),
{
    let u = c as u32;
    match k {
        CharClass::Space => c == ' ' || c == '\t',
        CharClass::Dec => 48 <= u && u <= 57,
        CharClass::Hex => (48 <= u && u <= 57) || (97 <= u && u <= 102) || (65 <= u && u <= 70),
        CharClass::Oct => 48 <= u && u <= 55,
    }
}

/// The length of the run of class-`k` characters starting at `pos`.
pub fn scan_class(input: &str, pos: usize, k: CharClass) -> (n: usize)
    requires
        pos <= input@.len(),
    ensures
        n == leading_count(input@.skip(pos as int), k),
        pos + n <= input@.len(),
        forall|j: int| pos <= j < pos + n ==> class_pred(k, input@[j]),
        pos + n < input@.len() ==> !class_pred(k, input@[pos + n]),
    {
    let len = input.unicode_len();
    let mut i: usize = pos;
    loop
        invariant_except_break
            pos <= i <= len,
            len == input@.len(),
            forall|j: int| pos <= j < i ==> class_pred(k, input@[j]),
        ensures
            pos <= i <= len,
            len == input@.len(),
            forall|j: int| pos <= j < i ==> class_pred(k, input@[j]),
            i == len || !class_pred(k, input@[i as int]),
        decreases len - i,
    {
        if i == len {
            break;
        }
        let c = input.get_char(i);
        if !char_in_class(c, k) {
            break;
        }
        i += 1;
    }
    proof {
        let s = input@.skip(pos as int);
        assert(forall|j: int| 0 <= j < i - pos ==> class_pred(k, s[j]));
        assert(i - pos == s.len() || !class_pred(k, s[i - pos]));
        lemma_leading_count_is(s, k, i - pos);
    }
    i - pos
}

// ---------------------------------------------------------------------------
// Case-insensitive tags
// ---------------------------------------------------------------------------

/// Whether `c` matches the pattern character `l` ignoring ASCII case; `l` is
/// the lowercase (or non-letter) spelling used by the grammar's keywords.
pub open spec fn char_matches_nocase(c: char, l: char) -> bool {
    c == l || (97 <= l as int && l as int <= 122 && c as int + 32 == l as int)
}

/// Whether `s` starts with `tag`, ignoring ASCII case.
pub open spec fn spec_tag_nocase(s: Seq<char>, tag: Seq<char>) -> bool {
    s.len() >= tag.len() && (forall|i: int|
        0 <= i < tag.len() ==> char_matches_nocase(s[i], tag[i]))
}

/// Whether two character sequences are equal ignoring ASCII case; the second
/// is the canonical lowercase spelling.
pub open spec fn seq_eq_nocase(s: Seq<char>, tag: Seq<char>) -> bool {
    s.len() == tag.len() && spec_tag_nocase(s, tag)
}

/// Whether `c` matches the pattern character `l` ignoring ASCII case.
pub fn char_eq_nocase(c: char, l: char) -> (r: bool)
    ensures
        r == char_matches_nocase(c, l),
{
    c == l || (97 <= l as u32 && l as u32 <= 122 && c as u32 + 32 == l as u32)
}

/// Matches `tag` at position `pos` of `input`, ignoring ASCII case; on a
/// match returns the position just past it.
pub fn tag_at(input: &str, pos: usize, tag: &str) -> (r: Option<usize>)
    requires
        pos <= input@.len(),
    ensures
        r is Some <==> spec_tag_nocase(input@.skip(pos as int), tag@),
        r is Some ==> r->0 == pos + tag@.len(),
{
    let tlen = tag.unicode_len();
    let ilen = input.unicode_len();
    if ilen - pos < tlen {
        return None;
    }
    let mut j: usize = 0;
    while j < tlen
        invariant
            0 <= j <= tlen,
            pos + tlen <= ilen,
            tlen == tag@.len(),
            ilen == input@.len(),
            forall|i: int| 0 <= i < j ==> char_matches_nocase(input@[pos + i], tag@[i]),
        decreases tlen - j,
    {
        let c = input.get_char(pos + j);
        let l = tag.get_char(j);
        if !char_eq_nocase(c, l) {
            proof {
                assert(!char_matches_nocase(input@.skip(pos as int)[j as int], tag@[j as int]));
            }
            return None;
        }
        j += 1;
    }
    proof {
        assert(forall|i: int|
            0 <= i < tag@.len() ==> char_matches_nocase(input@.skip(pos as int)[i], tag@[i]));
    }
    Some(pos + tlen)
}

// ---------------------------------------------------------------------------
// Parsed data: operands and instructions
// ---------------------------------------------------------------------------

/// The three shapes an operand can take.
#[derive(Debug, PartialEq, Eq, Structural, Clone, Copy)]
pub enum ParameterType {
    RegisterU8,
    RegisterU16,
    Literal,
}

/// An 8-bit register reference: its id in the assembler table and its
/// original spelling.
#[derive(Debug, PartialEq, Clone)]
pub struct RegisterU8 {
    pub reg_type: u8,
    pub reg_name: String,
}

impl RegisterU8 {
    pub fn new(reg_type: u8, reg_name: String) -> (r: Self)
        ensures
            r.reg_type == reg_type,
            r.reg_name == reg_name,
    {
        Self { reg_type, reg_name }
    }
}

/// A 16-bit register reference: its id in the assembler table and its
/// original spelling.
#[derive(Debug, PartialEq, Clone)]
pub struct Registeru16 {
    pub reg_type: u8,
    pub reg_name: String,
}

impl Registeru16 {
    pub fn new(reg_type: u8, reg_name: String) -> (r: Self)
        ensures
            r.reg_type == reg_type,
            r.reg_name == reg_name,
    {
        Self { reg_type, reg_name }
    }
}

/// A 16-bit literal constant.
#[derive(Debug, PartialEq, Eq, Structural, Clone, Copy)]
pub struct Literal {
    pub value: u16,
}

/// A parsed operand: a register reference (8- or 16-bit, with its table id
/// and original spelling) or a 16-bit literal.
#[derive(Debug, PartialEq, Clone)]
pub enum Parameter {
    RegU16 { name: String, reg_id: u8 },
    RegU8 { name: String, reg_id: u8 },
    Lit(u16),
}

/// The mathematical view of a parsed operand.
pub enum ParamView {
    Reg8 { name: Seq<char>, id: u8 },
    Reg16 { name: Seq<char>, id: u8 },
    Lit(u16),
}

impl View for Parameter {
    type V = ParamView;

    open spec fn view(&self) -> ParamView {
        match self {
            Parameter::RegU8 { name, reg_id } => ParamView::Reg8 { name: name@, id: *reg_id },
            Parameter::RegU16 { name, reg_id } => ParamView::Reg16 { name: name@, id: *reg_id },
            Parameter::Lit(v) => ParamView::Lit(*v),
        }
    }
}

/// A parsed instruction line: the mnemonic as written and its two operands.
#[derive(Debug, PartialEq, Clone)]
pub struct Instruction {
    pub ins_name: String,
    pub param1: Parameter,
    pub param2: Parameter,
}

/// The mathematical view of a parsed instruction.
pub struct InsView {
    pub name: Seq<char>,
    pub p1: ParamView,
    pub p2: ParamView,
}

impl View for Instruction {
    type V = InsView;

    open spec fn view(&self) -> InsView {
        InsView { name: self.ins_name@, p1: self.param1@, p2: self.param2@ }
    }
}

impl Instruction {
    pub fn new(ins_name: &str, param1: Parameter, param2: Parameter) -> (r: Self)
        ensures
            r.ins_name@ == ins_name@,
            r.param1 == param1,
            r.param2 == param2,
    {
        Self { ins_name: ins_name.to_owned(), param1, param2 }
    }
}

/// An ordered sequence of parsed instructions: program order is the order the
/// source lines were parsed in.
#[derive(Default, Debug, PartialEq, Clone)]
pub struct Program {
    pub instructions: Vec<Instruction>,
}

impl View for Program {
    type V = Seq<InsView>;

    open spec fn view(&self) -> Seq<InsView> {
        self.instructions@.map_values(|i: Instruction| i@)
    }
}

// ---------------------------------------------------------------------------
// Errors
// ---------------------------------------------------------------------------

/// The construct a failing line parse was looking for.
#[derive(Debug, PartialEq, Eq, Structural, Clone, Copy)]
pub enum ExpectedToken {
    Mnemonic,
    Separator,
    Operand,
    EndOfLine,
}

/// Why a single line failed to parse.
#[derive(Debug, PartialEq, Eq, Structural, Clone, Copy)]
pub enum LineError {
    Expected(ExpectedToken),
    LiteralOverflow,
}

/// Why a whole program was rejected: the first failing line, 1-based, with
/// the expected construct, or a literal on that line that does not fit 16
/// bits.
#[derive(Debug, PartialEq, Eq, Structural, Clone, Copy)]
pub enum AsmError {
    SyntaxError { line: usize, expected: ExpectedToken },
    LiteralOverflow { line: usize },
}

// ---------------------------------------------------------------------------
// The grammar, as specification functions over character sequences
// ---------------------------------------------------------------------------

/// Matches one of the four mnemonics at the start of `s`, in the grammar's
/// order; every mnemonic is three characters long.
pub open spec fn spec_mnemonic(s: Seq<char>) -> Option<int> {
    if spec_tag_nocase(s, "mov"@) {
        Some(3int)
    } else if spec_tag_nocase(s, "add"@) {
        Some(3int)
    } else if spec_tag_nocase(s, "sub"@) {
        Some(3int)
    } else if spec_tag_nocase(s, "mul"@) {
        Some(3int)
    } else {
        None
    }
}

/// Matches one of the eight 8-bit register names at the start of `s`, giving
/// the consumed length and the name's id in the assembler table
/// `[ah al ax bh bl bx ch cl cx dh dl dx ex fx gx hx acc]`.
pub open spec fn spec_reg8(s: Seq<char>) -> Option<(int, u8)> {
    if spec_tag_nocase(s, "ah"@) {
        Some((2int, 0u8))
    } else if spec_tag_nocase(s, "al"@) {
        Some((2int, 1u8))
    } else if spec_tag_nocase(s, "bh"@) {
        Some((2int, 3u8))
    } else if spec_tag_nocase(s, "bl"@) {
        Some((2int, 4u8))
    } else if spec_tag_nocase(s, "ch"@) {
        Some((2int, 6u8))
    } else if spec_tag_nocase(s, "cl"@) {
        Some((2int, 7u8))
    } else if spec_tag_nocase(s, "dh"@) {
        Some((2int, 9u8))
    } else if spec_tag_nocase(s, "dl"@) {
        Some((2int, 10u8))
    } else {
        None
    }
}

/// Matches one of the nine 16-bit register names at the start of `s`, giving
/// the consumed length and the name's id in the assembler table.
pub open spec fn spec_reg16(s: Seq<char>) -> Option<(int, u8)> {
    if spec_tag_nocase(s, "ax"@) {
        Some((2int, 2u8))
    } else if spec_tag_nocase(s, "bx"@) {
        Some((2int, 5u8))
    } else if spec_tag_nocase(s, "cx"@) {
        Some((2int, 8u8))
    } else if spec_tag_nocase(s, "dx"@) {
        Some((2int, 11u8))
    } else if spec_tag_nocase(s, "ex"@) {
        Some((2int, 12u8))
    } else if spec_tag_nocase(s, "fx"@) {
        Some((2int, 13u8))
    } else if spec_tag_nocase(s, "gx"@) {
        Some((2int, 14u8))
    } else if spec_tag_nocase(s, "hx"@) {
        Some((2int, 15u8))
    } else if spec_tag_nocase(s, "acc"@) {
        Some((3int, 16u8))
    } else {
        None
    }
}

/// The numeric value of an ASCII digit (decimal, octal, or either-case hex).
pub open spec fn digit_val(c: char) -> int {
    let u = c as int;
    if 48 <= u && u <= 57 {
        u - 48
    } else if 97 <= u && u <= 102 {
        u - 87
    } else if 65 <= u && u <= 70 {
        u - 55
    } else {
        0
    }
}

/// The value of a digit string read most-significant-first in base `radix`.
pub open spec fn digits_val(s: Seq<char>, radix: int) -> int
    decreases s.len(),
{
    if s.len() == 0 {
        0
    } else {
        digits_val(s.drop_last(), radix) * radix + digit_val(s.last())
    }
}

/// The base a digit class is read in.
pub open spec fn class_radix(k: CharClass) -> int {
    match k {
        CharClass::Space => 0,
        CharClass::Dec => 10,
        CharClass::Hex => 16,
        CharClass::Oct => 8,
    }
}

/// Matches a literal at the start of `s`: the octal-prefixed, hex-prefixed
/// and plain decimal forms are tried in that order. `Some((n, Some(v)))` is a
/// match of `n` characters with 16-bit value `v`; `Some((n, None))` is a
/// match whose value does not fit 16 bits; `None` is no match at all.
pub open spec fn spec_lit(s: Seq<char>) -> Option<(int, Option<u16>)> {
    if spec_tag_nocase(s, "0o"@) && leading_count(s.skip(2), CharClass::Oct) > 0 {
        let n = leading_count(s.skip(2), CharClass::Oct);
        let v = digits_val(s.skip(2).take(n), 8);
        Some((2 + n, if v < 0x10000 { Some(v as u16) } else { None }))
    } else if spec_tag_nocase(s, "0x"@) && leading_count(s.skip(2), CharClass::Hex) > 0 {
        let n = leading_count(s.skip(2), CharClass::Hex);
        let v = digits_val(s.skip(2).take(n), 16);
        Some((2 + n, if v < 0x10000 { Some(v as u16) } else { None }))
    } else if leading_count(s, CharClass::Dec) > 0 {
        let n = leading_count(s, CharClass::Dec);
        let v = digits_val(s.take(n), 10);
        Some((n, if v < 0x10000 { Some(v as u16) } else { None }))
    } else {
        None
    }
}

/// The outcome of matching an operand at the start of a suffix.
pub enum OperandParse {
    NoMatch,
    Overflow,
    Parsed(int, ParamView),
}

/// Matches an operand at the start of `s`: an 8-bit register, else a 16-bit
/// register, else a literal, in the grammar's order.
pub open spec fn spec_operand(s: Seq<char>) -> OperandParse {
    if spec_reg8(s) is Some {
        let (n, id) = spec_reg8(s)->0;
        OperandParse::Parsed(n, ParamView::Reg8 { name: s.take(n), id })
    } else if spec_reg16(s) is Some {
        let (n, id) = spec_reg16(s)->0;
        OperandParse::Parsed(n, ParamView::Reg16 { name: s.take(n), id })
    } else {
        match spec_lit(s) {
            Option::None => OperandParse::NoMatch,
            Option::Some((n, ov)) => match ov {
                Option::None => OperandParse::Overflow,
                Option::Some(v) => OperandParse::Parsed(n, ParamView::Lit(v)),
            },
        }
    }
}

/// The outcome of parsing one instruction at the start of a line.
pub enum InsParse {
    Fail(ExpectedToken),
    Overflow,
    Parsed(int, InsView),
}

/// Parses one instruction at the start of `s`: a mnemonic, a separator, an
/// operand, a separator, an operand, and an optional trailing separator,
/// giving the total consumed length and the instruction's view, or the first
/// missing construct.
pub open spec fn spec_get_ins(s: Seq<char>) -> InsParse {
    match spec_mnemonic(s) {
        Option::None => InsParse::Fail(ExpectedToken::Mnemonic),
        Option::Some(n0) => {
            let sp1 = leading_count(s.skip(n0), CharClass::Space);
            if sp1 == 0 {
                InsParse::Fail(ExpectedToken::Separator)
            } else {
                let q1 = n0 + sp1;
                match spec_operand(s.skip(q1)) {
                    OperandParse::NoMatch => InsParse::Fail(ExpectedToken::Operand),
                    OperandParse::Overflow => InsParse::Overflow,
                    OperandParse::Parsed(n1, p1) => {
                        let sp2 = leading_count(s.skip(q1 + n1), CharClass::Space);
                        if sp2 == 0 {
                            InsParse::Fail(ExpectedToken::Separator)
                        } else {
                            let q2 = q1 + n1 + sp2;
                            match spec_operand(s.skip(q2)) {
                                OperandParse::NoMatch => InsParse::Fail(ExpectedToken::Operand),
                                OperandParse::Overflow => InsParse::Overflow,
                                OperandParse::Parsed(n2, p2) => {
                                    let sp3 = leading_count(s.skip(q2 + n2), CharClass::Space);
                                    InsParse::Parsed(
                                        q2 + n2 + sp3,
                                        InsView { name: s.take(n0), p1, p2 },
                                    )
                                },
                            }
                        }
                    },
                }
            }
        },
    }
}

// ---------------------------------------------------------------------------
// The executable parser
// ---------------------------------------------------------------------------

/// Matches one of the four mnemonics at position `pos`, returning the
/// position just past it.
fn parse_mnemonic(input: &str, pos: usize) -> (r: Option<usize>)
    requires
        pos <= input@.len(),
    ensures
        r is Some <==> spec_mnemonic(input@.skip(pos as int)) is Some,
        r is Some ==> Some(r->0 - pos as int) == spec_mnemonic(input@.skip(pos as int)),
        r is Some ==> r->0 <= input@.len(),
{
    proof {
        reveal_strlit("mov");
        reveal_strlit("add");
        reveal_strlit("sub");
        reveal_strlit("mul");
    }
    if let Some(p) = tag_at(input, pos, "mov") {
        Some(p)
    } else if let Some(p) = tag_at(input, pos, "add") {
        Some(p)
    } else if let Some(p) = tag_at(input, pos, "sub") {
        Some(p)
    } else if let Some(p) = tag_at(input, pos, "mul") {
        Some(p)
    } else {
        None
    }
}

/// Matches one of the eight 8-bit register names at position `pos`, returning
/// the position just past it and the name's assembler-table id.
fn parse_reg8(input: &str, pos: usize) -> (r: Option<(usize, u8)>)
    requires
        pos <= input@.len(),
    ensures
        r is Some <==> spec_reg8(input@.skip(pos as int)) is Some,
        r matches Some(p) ==> (spec_reg8(input@.skip(pos as int)) == Some((p.0 - pos as int, p.1))
            && p.0 <= input@.len()),
{
    proof {
        reveal_strlit("ah");
        reveal_strlit("al");
        reveal_strlit("bh");
        reveal_strlit("bl");
        reveal_strlit("ch");
        reveal_strlit("cl");
        reveal_strlit("dh");
        reveal_strlit("dl");
    }
    if let Some(p) = tag_at(input, pos, "ah") {
        Some((p, 0))
    } else if let Some(p) = tag_at(input, pos, "al") {
        Some((p, 1))
    } else if let Some(p) = tag_at(input, pos, "bh") {
        Some((p, 3))
    } else if let Some(p) = tag_at(input, pos, "bl") {
        Some((p, 4))
    } else if let Some(p) = tag_at(input, pos, "ch") {
        Some((p, 6))
    } else if let Some(p) = tag_at(input, pos, "cl") {
        Some((p, 7))
    } else if let Some(p) = tag_at(input, pos, "dh") {
        Some((p, 9))
    } else if let Some(p) = tag_at(input, pos, "dl") {
        Some((p, 10))
    } else {
        None
    }
}

/// Matches one of the nine 16-bit register names at position `pos`, returning
/// the position just past it and the name's assembler-table id.
fn parse_reg16(input: &str, pos: usize) -> (r: Option<(usize, u8)>)
    requires
        pos <= input@.len(),
    ensures
        r is Some <==> spec_reg16(input@.skip(pos as int)) is Some,
        r matches Some(p) ==> (spec_reg16(input@.skip(pos as int)) == Some((p.0 - pos as int, p.1))
            && p.0 <= input@.len()),
{
    proof {
        reveal_strlit("ax");
        reveal_strlit("bx");
        reveal_strlit("cx");
        reveal_strlit("dx");
        reveal_strlit("ex");
        reveal_strlit("fx");
        reveal_strlit("gx");
        reveal_strlit("hx");
        reveal_strlit("acc");
    }
    if let Some(p) = tag_at(input, pos, "ax") {
        Some((p, 2))
    } else if let Some(p) = tag_at(input, pos, "bx") {
        Some((p, 5))
    } else if let Some(p) = tag_at(input, pos, "cx") {
        Some((p, 8))
    } else if let Some(p) = tag_at(input, pos, "dx") {
        Some((p, 11))
    } else if let Some(p) = tag_at(input, pos, "ex") {
        Some((p, 12))
    } else if let Some(p) = tag_at(input, pos, "fx") {
        Some((p, 13))
    } else if let Some(p) = tag_at(input, pos, "gx") {
        Some((p, 14))
    } else if let Some(p) = tag_at(input, pos, "hx") {
        Some((p, 15))
    } else if let Some(p) = tag_at(input, pos, "acc") {
        Some((p, 16))
    } else {
        None
    }
}

/// The numeric value of a digit known to belong to class `k`.
fn digit_value(c: char, k: CharClass) -> (d: u32)
    requires
        class_pred(k, c),
        k != CharClass::Space,
    ensures
        d == digit_val(c),
        d < 16,
{
    let u = c as u32;
    if 48 <= u && u <= 57 {
        u - 48
    } else if 97 <= u && u <= 102 {
        u - 87
    } else {
        u - 55
    }
}

/// Every digit string's value is at least its prefix's value (digits only
/// ever extend a number upward).
proof fn lemma_digits_val_bounds(s: Seq<char>, radix: int)
    requires
        radix >= 2,
    ensures
        digits_val(s, radix) >= 0,
        forall|i: int| 0 <= i <= s.len() ==> digits_val(s.take(i), radix) <= digits_val(s, radix),
    decreases s.len(),
{
    if s.len() == 0 {
        assert forall|i: int| 0 <= i <= s.len() implies digits_val(s.take(i), radix) <= digits_val(
            s,
            radix,
        ) by {
            assert(s.take(i) =~= s);
        }
    } else {
        lemma_digits_val_bounds(s.drop_last(), radix);
        assert(digits_val(s, radix) >= digits_val(s.drop_last(), radix)) by {
            assert(digits_val(s.drop_last(), radix) * radix >= digits_val(s.drop_last(), radix))
                by (nonlinear_arith)
                requires digits_val(s.drop_last(), radix) >= 0 && radix >= 2;
        }
        assert forall|i: int| 0 <= i <= s.len() implies digits_val(s.take(i), radix) <= digits_val(
            s,
            radix,
        ) by {
            if i == s.len() {
                assert(s.take(i) =~= s);
            } else {
                assert(s.take(i) =~= s.drop_last().take(i));
            }
        }
    }
}

/// Reads the `n` class-`k` digits at position `pos` as a number in the
/// class's base; `None` exactly when the value does not fit 16 bits.
fn digits_to_u16(input: &str, pos: usize, n: usize, k: CharClass) -> (r: Option<u16>)
    requires
        pos + n <= input@.len(),
        pos + n <= usize::MAX,
        forall|j: int| pos <= j < pos + n ==> class_pred(k, input@[j]),
        k != CharClass::Space,
    ensures
        ({
            let v = digits_val(input@.subrange(pos as int, pos + n), class_radix(k));
            ((v < 0x10000) ==> r == Some(v as u16)) && ((v >= 0x10000) ==> r is None)
        }),
{
    let ghost s = input@.subrange(pos as int, pos + n);
    let radix: u32 = match k {
        CharClass::Space => 0,
        CharClass::Dec => 10,
        CharClass::Hex => 16,
        CharClass::Oct => 8,
    };
    proof {
        lemma_digits_val_bounds(s, radix as int);
    }
    let mut acc: u32 = 0;
    let mut i: usize = 0;
    while i < n
        invariant
            0 <= i <= n,
            pos + n <= input@.len(),
            pos + n <= usize::MAX,
            s == input@.subrange(pos as int, pos + n),
            forall|j: int| pos <= j < pos + n ==> class_pred(k, input@[j]),
            k != CharClass::Space,
            radix == class_radix(k),
            acc == digits_val(s.take(i as int), radix as int),
            acc <= 0xFFFF,
        decreases n - i,
    {
        let c = input.get_char(pos + i);
        let d = digit_value(c, k);
        proof {
            assert(acc * radix + d < 0x200000) by (nonlinear_arith)
                requires
                    acc <= 0xFFFF,
                    radix <= 16,
                    d < 16,
            ;
        }
        let next: u32 = acc * radix + d;
        proof {
            assert(s.take(i + 1).drop_last() =~= s.take(i as int));
            assert(s.take(i + 1).last() == s[i as int]);
            assert(s[i as int] == input@[pos + i]);
        }
        if next > 0xFFFF {
            proof {
                lemma_digits_val_bounds(s, radix as int);
                assert(digits_val(s.take(i + 1), radix as int) == next);
                assert(digits_val(s, radix as int) >= next);
            }
            return None;
        }
        acc = next;
        i += 1;
    }
    proof {
        assert(s.take(n as int) =~= s);
    }
    Some(acc as u16)
}

/// Matches an operand at position `pos`: an 8-bit register, a 16-bit
/// register, or a literal, in the grammar's order, returning the position
/// just past it and the parsed operand.
fn parse_operand<'a>(input: &'a str, pos: usize) -> (r: Result<(usize, Parameter), LineError>)
    requires
        pos <= input@.len(),
    ensures
        spec_operand(input@.skip(pos as int)) matches OperandParse::Parsed(n, pv) ==> (r matches Ok(
            p,
        ) && p.0 == pos + n && p.1@ == pv && p.0 <= input@.len()),
        spec_operand(input@.skip(pos as int)) is NoMatch ==> r == Err::<
            (usize, Parameter),
            LineError,
        >(LineError::Expected(ExpectedToken::Operand)),
        spec_operand(input@.skip(pos as int)) is Overflow ==> r == Err::<
            (usize, Parameter),
            LineError,
        >(LineError::LiteralOverflow),
{
    let ghost s = input@.skip(pos as int);
    let ilen = input.unicode_len();
    if let Some((p, id)) = parse_reg8(input, pos) {
        let name = input.substring_char(pos, p);
        proof {
            assert(name@ =~= s.take(p - pos));
        }
        return Ok((p, Parameter::RegU8 { name: name.to_owned(), reg_id: id }));
    }
    if let Some((p, id)) = parse_reg16(input, pos) {
        let name = input.substring_char(pos, p);
        proof {
            assert(name@ =~= s.take(p - pos));
        }
        return Ok((p, Parameter::RegU16 { name: name.to_owned(), reg_id: id }));
    }
    // literal: octal-prefixed, hex-prefixed, then decimal, in that order
    proof {
        reveal_strlit("0o");
        reveal_strlit("0x");
    }
    if let Some(p2) = tag_at(input, pos, "0o") {
        let n = scan_class(input, p2, CharClass::Oct);
        if n > 0 {
            proof {
                assert(s.skip(2) =~= input@.skip(p2 as int));
                assert(input@.subrange(p2 as int, p2 + n) =~= s.skip(2).take(n as int));
            }
            return match digits_to_u16(input, p2, n, CharClass::Oct) {
                Some(v) => Ok((p2 + n, Parameter::Lit(v))),
                None => Err(LineError::LiteralOverflow),
            };
        }
    }
    if let Some(p2) = tag_at(input, pos, "0x") {
        let n = scan_class(input, p2, CharClass::Hex);
        if n > 0 {
            proof {
                assert(s.skip(2) =~= input@.skip(p2 as int));
                assert(input@.subrange(p2 as int, p2 + n) =~= s.skip(2).take(n as int));
            }
            return match digits_to_u16(input, p2, n, CharClass::Hex) {
                Some(v) => Ok((p2 + n, Parameter::Lit(v))),
                None => Err(LineError::LiteralOverflow),
            };
        }
    }
    let n = scan_class(input, pos, CharClass::Dec);
    if n > 0 {
        proof {
            assert(input@.subrange(pos as int, pos + n) =~= s.take(n as int));
        }
        return match digits_to_u16(input, pos, n, CharClass::Dec) {
            Some(v) => Ok((pos + n, Parameter::Lit(v))),
            None => Err(LineError::LiteralOverflow),
        };
    }
    Err(LineError::Expected(ExpectedToken::Operand))
}

/// Parses one instruction at the start of `input`: mnemonic, separator,
/// operand, separator, operand, optional trailing separator. On success
/// returns the unconsumed remainder and the instruction; the outcome, for
/// every input, is exactly `spec_get_ins` of the input.
#[verifier::rlimit(60)]
pub fn get_ins<'a>(input: &'a str) -> (r: Result<(&'a str, Instruction), LineError>)
    ensures
        spec_get_ins(input@) matches InsParse::Parsed(n, iv) ==> (r matches Ok(p) && p.0@
            == input@.skip(n) && p.1@ == iv && 0 <= n <= input@.len()),
        spec_get_ins(input@) matches InsParse::Fail(e) ==> r == Err::<
            (&'a str, Instruction),
            LineError,
        >(LineError::Expected(e)),
        spec_get_ins(input@) is Overflow ==> r == Err::<(&'a str, Instruction), LineError>(
            LineError::LiteralOverflow,
        ),
{
    let ghost s = input@;
    let ilen = input.unicode_len();
    proof {
        assert(s.skip(0) =~= s);
    }
    let p1 = match parse_mnemonic(input, 0) {
        Some(p) => p,
        None => {
            return Err(LineError::Expected(ExpectedToken::Mnemonic));
        },
    };
    let sp1 = scan_class(input, p1, CharClass::Space);
    proof {
        assert(s.skip(p1 as int) =~= s.skip(0).skip(p1 as int));
    }
    if sp1 == 0 {
        return Err(LineError::Expected(ExpectedToken::Separator));
    }
    let q1 = p1 + sp1;
    let (e1, param1) = match parse_operand(input, q1) {
        Ok(p) => p,
        Err(e) => {
            return Err(e);
        },
    };
    let sp2 = scan_class(input, e1, CharClass::Space);
    if sp2 == 0 {
        return Err(LineError::Expected(ExpectedToken::Separator));
    }
    let q2 = e1 + sp2;
    let (e2, param2) = match parse_operand(input, q2) {
        Ok(p) => p,
        Err(e) => {
            return Err(e);
        },
    };
    let sp3 = scan_class(input, e2, CharClass::Space);
    let e3 = e2 + sp3;
    let name = input.substring_char(0, p1);
    let rest = input.substring_char(e3, ilen);
    proof {
        assert(name@ =~= s.take(p1 as int));
        assert(rest@ =~= s.skip(e3 as int));
    }
    Ok((rest, Instruction::new(name, param1, param2)))
}

/// Matches `to_match` at the start of `input`, ignoring ASCII case, returning
/// the unconsumed remainder and the matched prefix as written.
pub fn upper_or_lower_str<'a>(to_match: &'a str, input: &'a str) -> (r: Option<(&'a str, &'a str)>)
    ensures
        r is Some <==> spec_tag_nocase(input@, to_match@),
        r matches Some(p) ==> (p.0@ == input@.skip(to_match@.len() as int) && p.1@ == input@.take(
            to_match@.len() as int,
        )),
{
    proof {
        assert(input@.skip(0) =~= input@);
    }
    match tag_at(input, 0, to_match) {
        Some(p) => {
            let ilen = input.unicode_len();
            let matched = input.substring_char(0, p);
            let rest = input.substring_char(p, ilen);
            proof {
                assert(matched@ =~= input@.take(to_match@.len() as int));
                assert(rest@ =~= input@.skip(to_match@.len() as int));
            }
            Some((rest, matched))
        },
        None => None,
    }
}

// ---------------------------------------------------------------------------
// Whole-program parsing
// ---------------------------------------------------------------------------

/// The number of characters before the first newline of `s` (or all of `s`).
pub open spec fn line_len(s: Seq<char>) -> int
    decreases s.len(),
{
    if s.len() == 0 {
        0
    } else if s[0] == '\n' {
        0
    } else {
        1 + line_len(s.skip(1))
    }
}

/// The first line is a well-formed prefix: within bounds, free of newlines,
/// and ended by the end of input or a newline.
pub proof fn lemma_line_len_props(s: Seq<char>)
    ensures
        0 <= line_len(s) <= s.len(),
        forall|j: int| 0 <= j < line_len(s) ==> s[j] != '\n',
        line_len(s) < s.len() ==> s[line_len(s)] == '\n',
    decreases s.len(),
{
    if s.len() > 0 && s[0] != '\n' {
        lemma_line_len_props(s.skip(1));
        assert forall|j: int| 0 <= j < line_len(s) implies s[j] != '\n' by {
            if j > 0 {
                assert(s.skip(1)[j - 1] != '\n');
            }
        }
    }
}

/// A scan that saw `n` non-newline characters and then stopped saw exactly
/// the first line.
pub proof fn lemma_line_len_is(s: Seq<char>, n: int)
    requires
        0 <= n <= s.len(),
        forall|j: int| 0 <= j < n ==> s[j] != '\n',
        n == s.len() || s[n] == '\n',
    ensures
        line_len(s) == n,
    decreases n,
{
    if n > 0 {
        lemma_line_len_is(s.skip(1), n - 1);
    }
}

/// The length of the line starting at `pos`.
fn scan_line(input: &str, pos: usize) -> (n: usize)
    requires
        pos <= input@.len(),
    ensures
        n == line_len(input@.skip(pos as int)),
        pos + n <= input@.len(),
        pos + n < input@.len() ==> input@[pos + n] == '\n',
{
    let len = input.unicode_len();
    let mut i: usize = pos;
    loop
        invariant_except_break
            pos <= i <= len,
            len == input@.len(),
            forall|j: int| pos <= j < i ==> input@[j] != '\n',
        ensures
            pos <= i <= len,
            len == input@.len(),
            forall|j: int| pos <= j < i ==> input@[j] != '\n',
            i == len || input@[i as int] == '\n',
        decreases len - i,
    {
        if i == len {
            break;
        }
        if input.get_char(i) == '\n' {
            break;
        }
        i += 1;
    }
    proof {
        let s = input@.skip(pos as int);
        assert(forall|j: int| 0 <= j < i - pos ==> s[j] != '\n');
        assert(i - pos == s.len() || s[i - pos] == '\n');
        lemma_line_len_is(s, i - pos);
    }
    i - pos
}

/// The outcome of parsing a whole program.
pub enum ProgParse {
    Accepted(Seq<InsView>),
    Rejected(int, LineError),
}

/// Parses a whole program starting at line number `lineno`: the ordered
/// concatenation of the per-line instruction parses, where a line consisting
/// only of separators is skipped; the first failing line rejects the whole
/// program with its 1-based number and reason.
pub open spec fn spec_parse_program(s: Seq<char>, lineno: int) -> ProgParse
    decreases s.len(),
    via spec_parse_program_decreases
{
    if s.len() == 0 {
        ProgParse::Accepted(Seq::empty())
    } else {
        let n = line_len(s);
        let line = s.take(n);
        let restpos = if n < s.len() {
            n + 1
        } else {
            n
        };
        let tail = spec_parse_program(s.skip(restpos), lineno + 1);
        if leading_count(line, CharClass::Space) == line.len() {
            tail
        } else {
            match spec_get_ins(line) {
                InsParse::Fail(e) => ProgParse::Rejected(lineno, LineError::Expected(e)),
                InsParse::Overflow => ProgParse::Rejected(lineno, LineError::LiteralOverflow),
                InsParse::Parsed(n2, iv) => if n2 == line.len() {
                    match tail {
                        ProgParse::Accepted(ivs) => ProgParse::Accepted(seq![iv] + ivs),
                        ProgParse::Rejected(l, e) => ProgParse::Rejected(l, e),
                    }
                } else {
                    ProgParse::Rejected(lineno, LineError::Expected(ExpectedToken::EndOfLine))
                },
            }
        }
    }
}

#[via_fn]
proof fn spec_parse_program_decreases(s: Seq<char>, lineno: int) {
    lemma_line_len_props(s);
}

/// Already-parsed instructions prepended to the outcome of the rest.
pub open spec fn spec_combine(done: Seq<InsView>, rest: ProgParse) -> ProgParse {
    match rest {
        ProgParse::Accepted(ivs) => ProgParse::Accepted(done + ivs),
        ProgParse::Rejected(l, e) => ProgParse::Rejected(l, e),
    }
}

proof fn lemma_combine_assoc(a: Seq<InsView>, b: Seq<InsView>, rest: ProgParse)
    ensures
        spec_combine(a, spec_combine(b, rest)) == spec_combine(a + b, rest),
{
    match rest {
        ProgParse::Accepted(ivs) => {
            assert(a + (b + ivs) =~= (a + b) + ivs);
        },
        ProgParse::Rejected(l, e) => {},
    }
}

/// Parses a whole program, line by line. A program is accepted exactly when
/// every line parses (lines of separators only are skipped); the first
/// failing line rejects it with a `SyntaxError` naming that 1-based line and
/// the missing construct, or with `LiteralOverflow` for a literal on that
/// line that does not fit 16 bits. The outcome, for every input, is exactly
/// `spec_parse_program` of the input.
#[verifier::rlimit(60)]
pub fn parse_program(source: &str) -> (r: Result<Program, AsmError>)
    ensures
        spec_parse_program(source@, 1) matches ProgParse::Accepted(ivs) ==> (r matches Ok(p) && p@
            == ivs),
        spec_parse_program(source@, 1) matches ProgParse::Rejected(l, le) ==> (match le {
            LineError::Expected(e) => r == Err::<Program, AsmError>(
                AsmError::SyntaxError { line: l as usize, expected: e },
            ),
            LineError::LiteralOverflow => r == Err::<Program, AsmError>(
                AsmError::LiteralOverflow { line: l as usize },
            ),
        }),
{
    let ghost src = source@;
    let ilen = source.unicode_len();
    let mut pos: usize = 0;
    let mut lineno: usize = 1;
    let mut instructions: Vec<Instruction> = Vec::new();
    proof {
        assert(src.skip(0) =~= src);
        assert(instructions@.map_values(|ins: Instruction| ins@) + Seq::<InsView>::empty()
            =~= instructions@.map_values(|ins: Instruction| ins@));
    }
    while pos < ilen
        invariant
            pos <= ilen,
            ilen == src.len(),
            src == source@,
            lineno <= pos + 1,
            spec_parse_program(src, 1) == spec_combine(
                instructions@.map_values(|ins: Instruction| ins@),
                spec_parse_program(src.skip(pos as int), lineno as int),
            ),
        decreases ilen - pos,
    {
        let ghost done = instructions@.map_values(|ins: Instruction| ins@);
        let ghost suffix = src.skip(pos as int);
        let n = scan_line(source, pos);
        let line_end = pos + n;
        let ghost line = suffix.take(n as int);
        proof {
            lemma_line_len_props(suffix);
        }
        let newpos = if line_end < ilen {
            line_end + 1
        } else {
            line_end
        };
        proof {
            assert(suffix.skip(if n < suffix.len() { n + 1 } else { n as int }) =~= src.skip(
                newpos as int,
            ));
        }
        let sp = scan_class(source, pos, CharClass::Space);
        proof {
            assert(forall|j: int| 0 <= j < sp ==> class_pred(CharClass::Space, suffix[j]));
            if sp > n {
                assert(class_pred(CharClass::Space, suffix[n as int]));
                assert(suffix[n as int] == '\n');
                assert(false);
            }
            if sp == n {
                lemma_leading_count_is(line, CharClass::Space, n as int);
            } else {
                assert(!class_pred(CharClass::Space, suffix[sp as int]));
                lemma_leading_count_is(line, CharClass::Space, sp as int);
            }
        }
        if sp == n {
            // a line of separators only is skipped
            pos = newpos;
            if pos < ilen {
                lineno += 1;
            }
            continue;
        }
        let line_str = source.substring_char(pos, line_end);
        proof {
            assert(line_str@ =~= line);
        }
        match get_ins(line_str) {
            Err(LineError::Expected(e)) => {
                return Err(AsmError::SyntaxError { line: lineno, expected: e });
            },
            Err(LineError::LiteralOverflow) => {
                return Err(AsmError::LiteralOverflow { line: lineno });
            },
            Ok((rest, ins)) => {
                if !rest.is_empty() {
                    proof {
                        match spec_get_ins(line) {
                            InsParse::Parsed(n2, iv) => {
                                assert(rest@ == line.skip(n2));
                            },
                            _ => {},
                        }
                    }
                    return Err(
                        AsmError::SyntaxError { line: lineno, expected: ExpectedToken::EndOfLine },
                    );
                }
                proof {
                    match spec_get_ins(line) {
                        InsParse::Parsed(n2, iv) => {
                            assert(rest@ == line.skip(n2));
                            assert(n2 == line.len());
                            assert(done + seq![iv] =~= (instructions@.push(ins)).map_values(
                                |i2: Instruction| i2@,
                            ));
                            lemma_combine_assoc(
                                done,
                                seq![iv],
                                spec_parse_program(src.skip(newpos as int), lineno + 1),
                            );
                        },
                        _ => {},
                    }
                }
                instructions.push(ins);
                pos = newpos;
                if pos < ilen {
                    lineno += 1;
                }
            },
        }
    }
    Ok(Program { instructions })
}

// ---------------------------------------------------------------------------
// Encoding parsed instructions into the engine's byte format
// ---------------------------------------------------------------------------

/// Why an instruction could not be encoded for the engine.
#[derive(Debug, PartialEq, Eq, Structural, Clone, Copy)]
pub enum EncodeError {
    /// The mnemonic and operand shapes have no engine opcode.
    UnsupportedInstruction,
    /// A register operand's name is not in the engine's canonical table.
    UnknownRegister,
}

/// The position of `name` in the engine's canonical register table
/// `[ip acc r1 .. r8]`, compared ignoring ASCII case. The assembler's own
/// table is larger and distinct; only names the engine also knows encode.
pub open spec fn spec_engine_register(name: Seq<char>) -> Option<u8> {
    if seq_eq_nocase(name, "ip"@) {
        Some(0u8)
    } else if seq_eq_nocase(name, "acc"@) {
        Some(1u8)
    } else if seq_eq_nocase(name, "r1"@) {
        Some(2u8)
    } else if seq_eq_nocase(name, "r2"@) {
        Some(3u8)
    } else if seq_eq_nocase(name, "r3"@) {
        Some(4u8)
    } else if seq_eq_nocase(name, "r4"@) {
        Some(5u8)
    } else if seq_eq_nocase(name, "r5"@) {
        Some(6u8)
    } else if seq_eq_nocase(name, "r6"@) {
        Some(7u8)
    } else if seq_eq_nocase(name, "r7"@) {
        Some(8u8)
    } else if seq_eq_nocase(name, "r8"@) {
        Some(9u8)
    } else {
        None
    }
}

/// Whether `a` equals the keyword `tag` ignoring ASCII case.
fn str_eq_nocase(a: &str, tag: &str) -> (r: bool)
    ensures
        r == seq_eq_nocase(a@, tag@),
{
    let alen = a.unicode_len();
    let tlen = tag.unicode_len();
    if alen != tlen {
        return false;
    }
    let mut j: usize = 0;
    while j < tlen
        invariant
            0 <= j <= tlen,
            alen == a@.len(),
            tlen == tag@.len(),
            alen == tlen,
            forall|i: int| 0 <= i < j ==> char_matches_nocase(a@[i], tag@[i]),
        decreases tlen - j,
    {
        if !char_eq_nocase(a.get_char(j), tag.get_char(j)) {
            return false;
        }
        j += 1;
    }
    true
}

/// The engine-table id for `name`, ignoring ASCII case.
fn engine_register(name: &str) -> (r: Option<u8>)
    ensures
        r == spec_engine_register(name@),
{
    if str_eq_nocase(name, "ip") {
        Some(0)
    } else if str_eq_nocase(name, "acc") {
        Some(1)
    } else if str_eq_nocase(name, "r1") {
        Some(2)
    } else if str_eq_nocase(name, "r2") {
        Some(3)
    } else if str_eq_nocase(name, "r3") {
        Some(4)
    } else if str_eq_nocase(name, "r4") {
        Some(5)
    } else if str_eq_nocase(name, "r5") {
        Some(6)
    } else if str_eq_nocase(name, "r6") {
        Some(7)
    } else if str_eq_nocase(name, "r7") {
        Some(8)
    } else if str_eq_nocase(name, "r8") {
        Some(9)
    } else {
        None
    }
}

/// The register name carried by an operand, if it is a register.
pub open spec fn reg_name_of(p: ParamView) -> Option<Seq<char>> {
    match p {
        ParamView::Reg8 { name, id } => Some(name),
        ParamView::Reg16 { name, id } => Some(name),
        ParamView::Lit(v) => None,
    }
}

/// The engine bytes for one parsed instruction: `mov literal register` is
/// `MOV_LIT_REG` with the literal high byte first and the engine register id,
/// `add register register` is `ADD_REG_REG` with the two engine ids; any
/// other mnemonic or operand shape has no engine opcode, and a register name
/// outside the engine's table cannot encode.
pub open spec fn spec_encode(iv: InsView) -> Result<Seq<u8>, EncodeError> {
    if seq_eq_nocase(iv.name, "mov"@) {
        match iv.p1 {
            ParamView::Lit(v) => match reg_name_of(iv.p2) {
                Option::None => Err(EncodeError::UnsupportedInstruction),
                Option::Some(nm) => match spec_engine_register(nm) {
                    Option::Some(id) => Ok(seq![MOV_LIT_REG, hi_byte(v), lo_byte(v), id]),
                    Option::None => Err(EncodeError::UnknownRegister),
                },
            },
            _ => Err(EncodeError::UnsupportedInstruction),
        }
    } else if seq_eq_nocase(iv.name, "add"@) {
        match (reg_name_of(iv.p1), reg_name_of(iv.p2)) {
            (Option::Some(n1), Option::Some(n2)) => match (
                spec_engine_register(n1),
                spec_engine_register(n2),
            ) {
                (Option::Some(id1), Option::Some(id2)) => Ok(seq![ADD_REG_REG, id1, id2]),
                _ => Err(EncodeError::UnknownRegister),
            },
            _ => Err(EncodeError::UnsupportedInstruction),
        }
    } else {
        Err(EncodeError::UnsupportedInstruction)
    }
}

impl Instruction {
    /// Encodes this instruction into the engine's byte format; the result,
    /// for every instruction, is exactly `spec_encode` of its view.
    pub fn encode(&self) -> (r: Result<Vec<u8>, EncodeError>)
        ensures
            spec_encode(self@) matches Ok(bytes) ==> (r matches Ok(v) && v@ == bytes),
            spec_encode(self@) matches Err(e) ==> r == Err::<Vec<u8>, EncodeError>(e),
    {
        if str_eq_nocase(self.ins_name.as_str(), "mov") {
            match &self.param1 {
                Parameter::Lit(v) => {
                    let name: &String = match &self.param2 {
                        Parameter::RegU8 { name, reg_id } => name,
                        Parameter::RegU16 { name, reg_id } => name,
                        Parameter::Lit(_) => {
                            return Err(EncodeError::UnsupportedInstruction);
                        },
                    };
                    match engine_register(name.as_str()) {
                        Some(id) => {
                            let mut out: Vec<u8> = Vec::new();
                            out.push(MOV_LIT_REG);
                            out.push((*v / 256) as u8);
                            out.push((*v % 256) as u8);
                            out.push(id);
                            proof {
                                assert(out@ =~= seq![MOV_LIT_REG, hi_byte(*v), lo_byte(*v), id]);
                            }
                            Ok(out)
                        },
                        None => Err(EncodeError::UnknownRegister),
                    }
                },
                _ => Err(EncodeError::UnsupportedInstruction),
            }
        } else if str_eq_nocase(self.ins_name.as_str(), "add") {
            let name1: &String = match &self.param1 {
                Parameter::RegU8 { name, reg_id } => name,
                Parameter::RegU16 { name, reg_id } => name,
                Parameter::Lit(_) => {
                    return Err(EncodeError::UnsupportedInstruction);
                },
            };
            let name2: &String = match &self.param2 {
                Parameter::RegU8 { name, reg_id } => name,
                Parameter::RegU16 { name, reg_id } => name,
                Parameter::Lit(_) => {
                    return Err(EncodeError::UnsupportedInstruction);
                },
            };
            match (engine_register(name1.as_str()), engine_register(name2.as_str())) {
                (Some(id1), Some(id2)) => {
                    let mut out: Vec<u8> = Vec::new();
                    out.push(ADD_REG_REG);
                    out.push(id1);
                    out.push(id2);
                    proof {
                        assert(out@ =~= seq![ADD_REG_REG, id1, id2]);
                    }
                    Ok(out)
                },
                _ => Err(EncodeError::UnknownRegister),
            }
        } else {
            Err(EncodeError::UnsupportedInstruction)
        }
    }
}

/// The engine bytes for a list of parsed instructions, in order; the first
/// instruction that cannot encode rejects the list.
pub open spec fn spec_encode_list(ivs: Seq<InsView>) -> Result<Seq<u8>, EncodeError>
    decreases ivs.len(),
{
    if ivs.len() == 0 {
        Ok(Seq::empty())
    } else {
        match spec_encode(ivs[0]) {
            Err(e) => Err(e),
            Ok(b) => match spec_encode_list(ivs.skip(1)) {
                Err(e) => Err(e),
                Ok(rest) => Ok(b + rest),
            },
        }
    }
}

/// The engine bytes for a whole program: each instruction's bytes in program
/// order, ended by the `END` opcode so a run of the result halts gracefully.
pub open spec fn spec_encode_program(ivs: Seq<InsView>) -> Result<Seq<u8>, EncodeError> {
    match spec_encode_list(ivs) {
        Ok(b) => Ok(b.push(END)),
        Err(e) => Err(e),
    }
}

/// Encodes a whole parsed program into the engine's byte format, `END`
/// opcode included; the result, for every program, is exactly
/// `spec_encode_program` of its view.
pub fn encode_program(p: &Program) -> (r: Result<Vec<u8>, EncodeError>)
    ensures
        spec_encode_program(p@) matches Ok(bytes) ==> (r matches Ok(v) && v@ == bytes),
        spec_encode_program(p@) matches Err(e) ==> r == Err::<Vec<u8>, EncodeError>(e),
{
    let ghost ivs = p@;
    let mut out: Vec<u8> = Vec::new();
    let mut i: usize = 0;
    let n = p.instructions.len();
    proof {
        assert(ivs.skip(0) =~= ivs);
        match spec_encode_list(ivs) {
            Ok(rest) => {
                assert(Seq::<u8>::empty() + rest =~= rest);
            },
            Err(_) => {},
        }
    }
    while i < n
        invariant
            0 <= i <= n,
            n == p.instructions@.len(),
            ivs == p@,
            spec_encode_list(ivs) == (match spec_encode_list(ivs.skip(i as int)) {
                Ok(rest) => Ok::<Seq<u8>, EncodeError>(out@ + rest),
                Err(e) => Err::<Seq<u8>, EncodeError>(e),
            }),
        decreases n - i,
    {
        let ghost pre = out@;
        proof {
            assert(ivs.skip(i as int)[0] == ivs[i as int]);
            assert(ivs[i as int] == p.instructions@[i as int]@);
            assert(ivs.skip(i as int).skip(1) =~= ivs.skip(i + 1));
        }
        let mut encoded = match p.instructions[i].encode() {
            Ok(v) => v,
            Err(e) => {
                return Err(e);
            },
        };
        out.append(&mut encoded);
        proof {
            match spec_encode_list(ivs.skip(i + 1)) {
                Ok(rest2) => {
                    assert(pre + (spec_encode(ivs[i as int])->Ok_0 + rest2) =~= out@ + rest2);
                },
                Err(_) => {},
            }
        }
        i += 1;
    }
    proof {
        assert(ivs.skip(n as int) =~= Seq::<InsView>::empty());
        assert(out@ + Seq::<u8>::empty() =~= out@);
    }
    out.push(END);
    Ok(out)
}

} // verus!
