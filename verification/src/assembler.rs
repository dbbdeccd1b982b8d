//! The assembler: one line of source text to one encoded instruction word.
//!
//! A line is split into tokens on runs of spaces, tabs and commas; the
//! first token is the mnemonic and the rest are operands in a fixed
//! per-opcode order. Assembly either fully succeeds or reports a
//! `ParseError`; no partially encoded word ever escapes.

use crate::insn::Insn;
use crate::insn::dest_bits;
use crate::insn::immediate_bits;
use crate::insn::lemma_encode_fields;
use crate::insn::lemma_fields_determine;
use crate::insn::lemma_zero_fields;
use crate::insn::opcode_bits;
use crate::insn::spec_encode;
use crate::insn::src1_bits;
use crate::insn::src2_bits;
use crate::opcode::Opcode;
use crate::opcode::chars_of;
use crate::opcode::lemma_char_cast_injective;
use crate::opcode::spec_tag;
use crate::opcode::token_eq_ci;
use vstd::prelude::*;

verus! {

/// Why one line of source text was rejected.
#[derive(Clone, Copy, Debug, PartialEq, Eq, Structural)]
pub enum ParseError {
    /// The line has no tokens at all.
    MissingMnemonic,
    /// The first token is not one of the five mnemonics.
    UnknownMnemonic,
    /// The line ends before all operands of its opcode were given.
    MissingOperand,
    /// An operand that must be a register is not `r` followed by a
    /// decimal index.
    BadRegisterToken,
    /// A register index is 256 or more.
    RegisterOutOfRange,
    /// An operand that must be a numeric literal does not parse.
    BadNumericLiteral,
    /// A memory address used by Load or Store is 1024 or more.
    AddressOutOfRange,
}

/// Token separators: space, tab and comma.
pub open spec fn is_delim(c: char) -> bool {
    c == ' ' || c == '\t' || c == ','
}

/// One step of the tokenizer: fold the next character into the tokens
/// finished so far and the token currently being read.
pub open spec fn tok_step(toks: Seq<Seq<char>>, cur: Seq<char>, c: char) -> (Seq<Seq<char>>, Seq<
    char,
>) {
    if is_delim(c) {
        if cur.len() == 0 {
            (toks, cur)
        } else {
            (toks.push(cur), Seq::empty())
        }
    } else {
        (toks, cur.push(c))
    }
}

/// The tokenizer state after reading the first `n` characters of `s`.
pub open spec fn tok_fold(s: Seq<char>, n: int) -> (Seq<Seq<char>>, Seq<char>)
    decreases n,
{
    if n <= 0 {
        (Seq::empty(), Seq::empty())
    } else {
        let p = tok_fold(s, n - 1);
        tok_step(p.0, p.1, s[n - 1])
    }
}

/// The tokens of `s`: maximal runs of non-separator characters, in order.
pub open spec fn spec_tokenize(s: Seq<char>) -> Seq<Seq<char>> {
    let p = tok_fold(s, s.len() as int);
    if p.1.len() == 0 {
        p.0
    } else {
        p.0.push(p.1)
    }
}

/// The views of a sequence of character vectors.
pub open spec fn views_of(ts: Seq<Vec<char>>) -> Seq<Seq<char>> {
    Seq::new(ts.len(), |i: int| ts[i]@)
}

/// Split `s` into tokens on runs of spaces, tabs and commas.
pub fn tokenize(s: &Vec<char>) -> (r: Vec<Vec<char>>)
    ensures
        views_of(r@) == spec_tokenize(s@),
{
    let mut toks: Vec<Vec<char>> = Vec::new();
    let mut cur: Vec<char> = Vec::new();
    let mut i: usize = 0;
    while i < s.len()
        invariant
            i <= s@.len(),
            (views_of(toks@), cur@) == tok_fold(s@, i as int),
        decreases s@.len() - i,
    {
        let ghost prev = (views_of(toks@), cur@);
        let c = s[i];
        if c == ' ' || c == '\t' || c == ',' {
            if cur.len() > 0 {
                let done = cur;
                cur = Vec::new();
                toks.push(done);
                assert(views_of(toks@) =~= prev.0.push(done@));
            }
        } else {
            cur.push(c);
        }
        assert((views_of(toks@), cur@) == tok_step(prev.0, prev.1, s@[i as int]));
        i += 1;
    }
    if cur.len() > 0 {
        let ghost before = views_of(toks@);
        let done = cur;
        toks.push(done);
        assert(views_of(toks@) =~= before.push(done@));
    }
    toks
}

/// The value of `c` as a digit, or 16 when `c` is no digit in any radix
/// the assembler accepts. Hexadecimal digits may be either case.
pub open spec fn digit_val(c: char) -> int {
    if '0' as u32 <= c as u32 && c as u32 <= '9' as u32 {
        c as u32 - '0' as u32
    } else if 'a' as u32 <= c as u32 && c as u32 <= 'f' as u32 {
        10 + (c as u32 - 'a' as u32)
    } else if 'A' as u32 <= c as u32 && c as u32 <= 'F' as u32 {
        10 + (c as u32 - 'A' as u32)
    } else {
        16
    }
}

/// `c` is a digit of the given radix.
pub open spec fn is_digit(c: char, radix: u32) -> bool {
    digit_val(c) < radix
}

/// Every character of `s` is a digit of the given radix.
pub open spec fn all_digits(s: Seq<char>, radix: u32) -> bool {
    forall|i: int| 0 <= i < s.len() ==> is_digit(s[i], radix)
}

/// The integer that the digit string `s` denotes in the given radix.
pub open spec fn radix_val(s: Seq<char>, radix: u32) -> int
    decreases s.len(),
{
    if s.len() == 0 {
        0
    } else {
        radix_val(s.drop_last(), radix) * radix + digit_val(s.last())
    }
}

/// A digit string never denotes a negative value.
proof fn lemma_radix_val_nonneg(s: Seq<char>, radix: u32)
    ensures
        radix_val(s, radix) >= 0,
    decreases s.len(),
{
    if s.len() > 0 {
        lemma_radix_val_nonneg(s.drop_last(), radix);
        assert(radix_val(s.drop_last(), radix) * radix >= 0) by (nonlinear_arith)
            requires
                radix_val(s.drop_last(), radix) >= 0,
        ;
    }
}

/// Reading more digits never shrinks the value: the value of a prefix is
/// a lower bound for the value of the whole string.
proof fn lemma_radix_val_prefix_le(s: Seq<char>, radix: u32, i: int)
    requires
        0 <= i <= s.len(),
        radix >= 1,
    ensures
        radix_val(s.take(i), radix) <= radix_val(s, radix),
    decreases s.len() - i,
{
    if i == s.len() {
        assert(s.take(i) =~= s);
    } else {
        lemma_radix_val_prefix_le(s, radix, i + 1);
        assert(s.take(i + 1).drop_last() =~= s.take(i));
        assert(s.take(i + 1).last() == s[i]);
        lemma_radix_val_nonneg(s.take(i), radix);
        assert(radix_val(s.take(i), radix) * radix >= radix_val(s.take(i), radix))
            by (nonlinear_arith)
            requires
                radix_val(s.take(i), radix) >= 0,
                radix >= 1,
        ;
    }
}

/// The numeric value of the digit string `s` in the given radix, if `s`
/// is non-empty, all digits, and the value fits in 32 bits.
pub open spec fn spec_parse_radix(s: Seq<char>, radix: u32) -> Option<u32> {
    if s.len() > 0 && all_digits(s, radix) && radix_val(s, radix) <= u32::MAX {
        Some(radix_val(s, radix) as u32)
    } else {
        None
    }
}

/// The value of a numeric literal token: decimal by default, hexadecimal
/// after a `0x` prefix, binary after a `0b` prefix.
pub open spec fn spec_parse_number(t: Seq<char>) -> Option<u32> {
    if t.len() >= 2 && t[0] == '0' && t[1] == 'x' {
        spec_parse_radix(t.skip(2), 16)
    } else if t.len() >= 2 && t[0] == '0' && t[1] == 'b' {
        spec_parse_radix(t.skip(2), 2)
    } else {
        spec_parse_radix(t, 10)
    }
}

/// The digit value of `c` in the given radix, if it is one.
fn digit_value(c: char, radix: u32) -> (r: Option<u32>)
    requires
        radix <= 16,
    ensures
        match r {
            Some(v) => is_digit(c, radix) && v == digit_val(c),
            None => !is_digit(c, radix),
        },
{
    let u = c as u32;
    let v: u32 = if '0' as u32 <= u && u <= '9' as u32 {
        u - '0' as u32
    } else if 'a' as u32 <= u && u <= 'f' as u32 {
        10 + (u - 'a' as u32)
    } else if 'A' as u32 <= u && u <= 'F' as u32 {
        10 + (u - 'A' as u32)
    } else {
        16
    };
    if v < radix {
        Some(v)
    } else {
        None
    }
}

/// Parse the digits of `t` from position `start` onward in the given
/// radix, exactly when they are non-empty, all valid and fit in 32 bits.
fn parse_radix(t: &Vec<char>, start: usize, radix: u32) -> (r: Option<u32>)
    requires
        start <= t@.len(),
        2 <= radix <= 16,
    ensures
        r == spec_parse_radix(t@.skip(start as int), radix),
{
    let ghost d = t@.skip(start as int);
    if start == t.len() {
        return None;
    }
    let mut acc: u32 = 0;
    let mut i: usize = start;
    while i < t.len()
        invariant
            start <= i <= t@.len(),
            start < t@.len(),
            2 <= radix <= 16,
            d == t@.skip(start as int),
            forall|m: int| 0 <= m < i - start ==> is_digit(d[m], radix),
            acc == radix_val(d.take(i - start), radix),
        decreases t@.len() - i,
    {
        let ghost k = i - start;
        let c = t[i];
        assert(d[k as int] == t@[i as int]);
        match digit_value(c, radix) {
            None => {
                assert(!is_digit(d[k as int], radix));
                return None;
            },
            Some(dv) => {
                proof {
                    assert(acc as int * radix as int <= 0xFFFF_FFFF * 16) by (nonlinear_arith)
                        requires
                            0 <= acc <= 0xFFFF_FFFF,
                            0 <= radix <= 16,
                    ;
                }
                let wide: u64 = acc as u64 * radix as u64 + dv as u64;
                proof {
                    assert(d.take(k + 1).drop_last() =~= d.take(k as int));
                    assert(d.take(k + 1).last() == d[k as int]);
                }
                assert(radix_val(d.take(k + 1), radix) == wide);
                if wide > 0xFFFF_FFFFu64 {
                    proof {
                        if all_digits(d, radix) {
                            lemma_radix_val_prefix_le(d, radix, k + 1);
                        }
                        assert(radix_val(d.take(k + 1), radix) > u32::MAX);
                    }
                    return None;
                }
                acc = wide as u32;
                i += 1;
            },
        }
    }
    assert(d.take(t@.len() - start) =~= d);
    assert(all_digits(d, radix));
    Some(acc)
}

/// Parse a numeric literal token: decimal, `0x`-hex or `0b`-binary.
pub fn parse_number(t: &Vec<char>) -> (r: Option<u32>)
    ensures
        r == spec_parse_number(t@),
{
    if t.len() >= 2 && t[0] == '0' {
        let second = t[1];
        if second == 'x' {
            return parse_radix(t, 2, 16);
        }
        if second == 'b' {
            return parse_radix(t, 2, 2);
        }
    }
    let r = parse_radix(t, 0, 10);
    assert(t@.skip(0) =~= t@);
    r
}

/// The register index that the token `t` denotes: the letter `r` in
/// either case followed by a decimal index below 256.
pub open spec fn spec_parse_register(t: Seq<char>) -> Result<u8, ParseError> {
    if t.len() < 2 || !(t[0] == 'r' || t[0] == 'R') {
        Err(ParseError::BadRegisterToken)
    } else if !all_digits(t.skip(1), 10) {
        Err(ParseError::BadRegisterToken)
    } else if radix_val(t.skip(1), 10) >= 256 {
        Err(ParseError::RegisterOutOfRange)
    } else {
        Ok(radix_val(t.skip(1), 10) as u8)
    }
}

/// Parse a register token.
pub fn parse_register(t: &Vec<char>) -> (r: Result<u8, ParseError>)
    ensures
        r == spec_parse_register(t@),
{
    let ghost d = t@.skip(1);
    if t.len() < 2 {
        return Err(ParseError::BadRegisterToken);
    }
    let first = t[0];
    if !(first == 'r' || first == 'R') {
        return Err(ParseError::BadRegisterToken);
    }
    // First pass: the remainder must be all decimal digits.
    let mut i: usize = 1;
    while i < t.len()
        invariant
            1 <= i <= t@.len(),
            2 <= t@.len(),
            d == t@.skip(1),
            forall|m: int| 0 <= m < i - 1 ==> is_digit(d[m], 10),
        decreases t@.len() - i,
    {
        let c = t[i];
        assert(d[i - 1] == t@[i as int]);
        match digit_value(c, 10) {
            None => {
                assert(!is_digit(d[i - 1], 10));
                return Err(ParseError::BadRegisterToken);
            },
            Some(_) => {
                i += 1;
            },
        }
    }
    assert(all_digits(d, 10));
    // Second pass: accumulate the index, stopping as soon as it reaches 256.
    let mut acc: u32 = 0;
    let mut j: usize = 1;
    while j < t.len()
        invariant
            1 <= j <= t@.len(),
            2 <= t@.len(),
            d == t@.skip(1),
            t@[0] == 'r' || t@[0] == 'R',
            all_digits(d, 10),
            acc == radix_val(d.take(j - 1), 10),
            acc < 256,
        decreases t@.len() - j,
    {
        let c = t[j];
        assert(d[j - 1] == t@[j as int]);
        let dv = match digit_value(c, 10) {
            None => {
                assert(is_digit(d[j - 1], 10));
                assert(false);
                0
            },
            Some(v) => v,
        };
        let next: u32 = acc * 10 + dv;
        proof {
            assert(d.take(j as int).drop_last() =~= d.take(j - 1));
            assert(d.take(j as int).last() == d[j - 1]);
        }
        assert(radix_val(d.take(j as int), 10) == next);
        if next > 255 {
            proof {
                lemma_radix_val_prefix_le(d, 10, j as int);
            }
            return Err(ParseError::RegisterOutOfRange);
        }
        acc = next;
        j += 1;
    }
    assert(d.take(t@.len() - 1) =~= d);
    Ok(acc as u8)
}

/// The word a Load line encodes to: `load addr, reg` puts the address in
/// the immediate field and the register in the dest field.
pub open spec fn spec_assemble_load(toks: Seq<Seq<char>>) -> Result<u64, ParseError> {
    if toks.len() < 2 {
        Err(ParseError::MissingOperand)
    } else {
        match spec_parse_number(toks[1]) {
            None => Err(ParseError::BadNumericLiteral),
            Some(addr) => if toks.len() < 3 {
                Err(ParseError::MissingOperand)
            } else {
                match spec_parse_register(toks[2]) {
                    Err(e) => Err(e),
                    Ok(reg) => if addr >= 1024 {
                        Err(ParseError::AddressOutOfRange)
                    } else {
                        Ok(spec_encode(spec_tag(Opcode::Load), 0, 0, reg as u64, addr as u64))
                    },
                }
            },
        }
    }
}

/// The word a Store line encodes to: `store reg, addr` puts the register
/// in the src1 field and the address in the immediate field.
pub open spec fn spec_assemble_store(toks: Seq<Seq<char>>) -> Result<u64, ParseError> {
    if toks.len() < 2 {
        Err(ParseError::MissingOperand)
    } else {
        match spec_parse_register(toks[1]) {
            Err(e) => Err(e),
            Ok(reg) => if toks.len() < 3 {
                Err(ParseError::MissingOperand)
            } else {
                match spec_parse_number(toks[2]) {
                    None => Err(ParseError::BadNumericLiteral),
                    Some(addr) => if addr >= 1024 {
                        Err(ParseError::AddressOutOfRange)
                    } else {
                        Ok(spec_encode(spec_tag(Opcode::Store), reg as u64, 0, 0, addr as u64))
                    },
                }
            },
        }
    }
}

/// The word a Move line encodes to: `move imm, reg` puts the full 32-bit
/// immediate in the immediate field and the register in the dest field.
pub open spec fn spec_assemble_move(toks: Seq<Seq<char>>) -> Result<u64, ParseError> {
    if toks.len() < 2 {
        Err(ParseError::MissingOperand)
    } else {
        match spec_parse_number(toks[1]) {
            None => Err(ParseError::BadNumericLiteral),
            Some(imm) => if toks.len() < 3 {
                Err(ParseError::MissingOperand)
            } else {
                match spec_parse_register(toks[2]) {
                    Err(e) => Err(e),
                    Ok(reg) => Ok(
                        spec_encode(spec_tag(Opcode::Move), 0, 0, reg as u64, imm as u64),
                    ),
                }
            },
        }
    }
}

/// The word an Add or Sub line encodes to: three register tokens fill the
/// src1, src2 and dest fields in order; the immediate stays zero.
pub open spec fn spec_assemble_rrr(toks: Seq<Seq<char>>, op: Opcode) -> Result<u64, ParseError> {
    if toks.len() < 2 {
        Err(ParseError::MissingOperand)
    } else {
        match spec_parse_register(toks[1]) {
            Err(e) => Err(e),
            Ok(src1) => if toks.len() < 3 {
                Err(ParseError::MissingOperand)
            } else {
                match spec_parse_register(toks[2]) {
                    Err(e) => Err(e),
                    Ok(src2) => if toks.len() < 4 {
                        Err(ParseError::MissingOperand)
                    } else {
                        match spec_parse_register(toks[3]) {
                            Err(e) => Err(e),
                            Ok(dest) => Ok(
                                spec_encode(
                                    spec_tag(op),
                                    src1 as u64,
                                    src2 as u64,
                                    dest as u64,
                                    0,
                                ),
                            ),
                        }
                    },
                }
            },
        }
    }
}

/// The word a token sequence assembles to, or the first error met while
/// consuming the tokens in order.
pub open spec fn spec_assemble_tokens(toks: Seq<Seq<char>>) -> Result<u64, ParseError> {
    if toks.len() == 0 {
        Err(ParseError::MissingMnemonic)
    } else {
        match Opcode::spec_from_mnemonic(toks[0]) {
            None => Err(ParseError::UnknownMnemonic),
            Some(op) => match op {
                Opcode::Load => spec_assemble_load(toks),
                Opcode::Store => spec_assemble_store(toks),
                Opcode::Move => spec_assemble_move(toks),
                Opcode::Add => spec_assemble_rrr(toks, Opcode::Add),
                Opcode::Sub => spec_assemble_rrr(toks, Opcode::Sub),
            },
        }
    }
}

/// The word one whole line of source text assembles to.
pub open spec fn spec_assemble(s: Seq<char>) -> Result<u64, ParseError> {
    spec_assemble_tokens(spec_tokenize(s))
}

/// An assembly result with the instruction word replaced by its view.
pub open spec fn assemble_result_view(r: Result<Insn, ParseError>) -> Result<u64, ParseError> {
    match r {
        Ok(ins) => Ok(ins@),
        Err(e) => Err(e),
    }
}

/// Assemble an already tokenized line.
pub fn assemble_tokens(toks: &Vec<Vec<char>>) -> (r: Result<Insn, ParseError>)
    ensures
        assemble_result_view(r) == spec_assemble_tokens(views_of(toks@)),
{
    let ghost tv = views_of(toks@);
    if toks.len() == 0 {
        return Err(ParseError::MissingMnemonic);
    }
    assert(tv[0] == toks@[0]@);
    let op = match Opcode::from_token(&toks[0]) {
        None => { return Err(ParseError::UnknownMnemonic) },
        Some(op) => op,
    };
    let mut ins = Insn::new(0);
    proof {
        lemma_zero_fields();
    }
    ins.set_opcode(op.to_u64() as u8);
    match op {
        Opcode::Load => {
            if toks.len() < 2 {
                return Err(ParseError::MissingOperand);
            }
            assert(tv[1] == toks@[1]@);
            let addr = match parse_number(&toks[1]) {
                None => { return Err(ParseError::BadNumericLiteral) },
                Some(v) => v,
            };
            if toks.len() < 3 {
                return Err(ParseError::MissingOperand);
            }
            assert(tv[2] == toks@[2]@);
            let reg = match parse_register(&toks[2]) {
                Err(e) => { return Err(e) },
                Ok(v) => v,
            };
            if addr >= 1024 {
                return Err(ParseError::AddressOutOfRange);
            }
            ins.set_immediate(addr);
            ins.set_dest(reg);
            proof {
                lemma_encode_fields(spec_tag(Opcode::Load), 0, 0, reg as u64, addr as u64);
                lemma_fields_determine(
                    ins@,
                    spec_encode(spec_tag(Opcode::Load), 0, 0, reg as u64, addr as u64),
                );
            }
            Ok(ins)
        },
        Opcode::Store => {
            if toks.len() < 2 {
                return Err(ParseError::MissingOperand);
            }
            assert(tv[1] == toks@[1]@);
            let reg = match parse_register(&toks[1]) {
                Err(e) => { return Err(e) },
                Ok(v) => v,
            };
            if toks.len() < 3 {
                return Err(ParseError::MissingOperand);
            }
            assert(tv[2] == toks@[2]@);
            let addr = match parse_number(&toks[2]) {
                None => { return Err(ParseError::BadNumericLiteral) },
                Some(v) => v,
            };
            if addr >= 1024 {
                return Err(ParseError::AddressOutOfRange);
            }
            ins.set_src1(reg);
            ins.set_immediate(addr);
            proof {
                lemma_encode_fields(spec_tag(Opcode::Store), reg as u64, 0, 0, addr as u64);
                lemma_fields_determine(
                    ins@,
                    spec_encode(spec_tag(Opcode::Store), reg as u64, 0, 0, addr as u64),
                );
            }
            Ok(ins)
        },
        Opcode::Move => {
            if toks.len() < 2 {
                return Err(ParseError::MissingOperand);
            }
            assert(tv[1] == toks@[1]@);
            let imm = match parse_number(&toks[1]) {
                None => { return Err(ParseError::BadNumericLiteral) },
                Some(v) => v,
            };
            if toks.len() < 3 {
                return Err(ParseError::MissingOperand);
            }
            assert(tv[2] == toks@[2]@);
            let reg = match parse_register(&toks[2]) {
                Err(e) => { return Err(e) },
                Ok(v) => v,
            };
            ins.set_immediate(imm);
            ins.set_dest(reg);
            proof {
                lemma_encode_fields(spec_tag(Opcode::Move), 0, 0, reg as u64, imm as u64);
                lemma_fields_determine(
                    ins@,
                    spec_encode(spec_tag(Opcode::Move), 0, 0, reg as u64, imm as u64),
                );
            }
            Ok(ins)
        },
        Opcode::Add | Opcode::Sub => {
            if toks.len() < 2 {
                return Err(ParseError::MissingOperand);
            }
            assert(tv[1] == toks@[1]@);
            let src1 = match parse_register(&toks[1]) {
                Err(e) => { return Err(e) },
                Ok(v) => v,
            };
            if toks.len() < 3 {
                return Err(ParseError::MissingOperand);
            }
            assert(tv[2] == toks@[2]@);
            let src2 = match parse_register(&toks[2]) {
                Err(e) => { return Err(e) },
                Ok(v) => v,
            };
            if toks.len() < 4 {
                return Err(ParseError::MissingOperand);
            }
            assert(tv[3] == toks@[3]@);
            let dest = match parse_register(&toks[3]) {
                Err(e) => { return Err(e) },
                Ok(v) => v,
            };
            ins.set_src1(src1);
            ins.set_src2(src2);
            ins.set_dest(dest);
            proof {
                lemma_encode_fields(
                    spec_tag(op),
                    src1 as u64,
                    src2 as u64,
                    dest as u64,
                    0,
                );
                lemma_fields_determine(
                    ins@,
                    spec_encode(spec_tag(op), src1 as u64, src2 as u64, dest as u64, 0),
                );
            }
            Ok(ins)
        },
    }
}

impl Insn {
    /// Assemble one line of source text into an encoded instruction word.
    pub fn bin_translation(s: &str) -> (r: Result<Insn, ParseError>)
        ensures
            assemble_result_view(r) == spec_assemble(s@),
    {
        let cs = chars_of(s);
        let toks = tokenize(&cs);
        assemble_tokens(&toks)
    }
}


/// Round trip: whenever a token sequence assembles to a word, extracting
/// the word's fields gives back exactly the opcode tag and the operands
/// the tokens supplied, and every field no operand filled is zero. This
/// holds for every opcode and for every in-range operand combination,
/// since those are exactly the sequences that assemble successfully.
pub proof fn lemma_assemble_round_trip(toks: Seq<Seq<char>>, w: u64)
    requires
        spec_assemble_tokens(toks) == Ok::<u64, ParseError>(w),
    ensures
        toks.len() >= 1,
        Opcode::spec_from_mnemonic(toks[0]) is Some,
        opcode_bits(w) == spec_tag(Opcode::spec_from_mnemonic(toks[0])->Some_0),
        match Opcode::spec_from_mnemonic(toks[0])->Some_0 {
            Opcode::Load => {
                &&& immediate_bits(w) == spec_parse_number(toks[1])->Some_0
                &&& dest_bits(w) == spec_parse_register(toks[2])->Ok_0
                &&& src1_bits(w) == 0
                &&& src2_bits(w) == 0
            },
            Opcode::Store => {
                &&& src1_bits(w) == spec_parse_register(toks[1])->Ok_0
                &&& immediate_bits(w) == spec_parse_number(toks[2])->Some_0
                &&& src2_bits(w) == 0
                &&& dest_bits(w) == 0
            },
            Opcode::Move => {
                &&& immediate_bits(w) == spec_parse_number(toks[1])->Some_0
                &&& dest_bits(w) == spec_parse_register(toks[2])->Ok_0
                &&& src1_bits(w) == 0
                &&& src2_bits(w) == 0
            },
            Opcode::Add | Opcode::Sub => {
                &&& src1_bits(w) == spec_parse_register(toks[1])->Ok_0
                &&& src2_bits(w) == spec_parse_register(toks[2])->Ok_0
                &&& dest_bits(w) == spec_parse_register(toks[3])->Ok_0
                &&& immediate_bits(w) == 0
            },
        },
{
    let op = Opcode::spec_from_mnemonic(toks[0])->Some_0;
    match op {
        Opcode::Load => {
            let addr = spec_parse_number(toks[1])->Some_0;
            let reg = spec_parse_register(toks[2])->Ok_0;
            lemma_encode_fields(spec_tag(op), 0, 0, reg as u64, addr as u64);
        },
        Opcode::Store => {
            let reg = spec_parse_register(toks[1])->Ok_0;
            let addr = spec_parse_number(toks[2])->Some_0;
            lemma_encode_fields(spec_tag(op), reg as u64, 0, 0, addr as u64);
        },
        Opcode::Move => {
            let imm = spec_parse_number(toks[1])->Some_0;
            let reg = spec_parse_register(toks[2])->Ok_0;
            lemma_encode_fields(spec_tag(op), 0, 0, reg as u64, imm as u64);
        },
        Opcode::Add | Opcode::Sub => {
            let src1 = spec_parse_register(toks[1])->Ok_0;
            let src2 = spec_parse_register(toks[2])->Ok_0;
            let dest = spec_parse_register(toks[3])->Ok_0;
            lemma_encode_fields(spec_tag(op), src1 as u64, src2 as u64, dest as u64, 0);
        },
    }
}

/// Assembly reads a line only through its tokens: two lines with the
/// same tokens assemble to the same result, whatever whitespace or
/// commas separated them.
pub proof fn lemma_whitespace_insensitive(s1: Seq<char>, s2: Seq<char>)
    requires
        spec_tokenize(s1) == spec_tokenize(s2),
    ensures
        spec_assemble(s1) == spec_assemble(s2),
{
}

/// Assembly reads operand tokens only through their parsed values: token
/// sequences of equal length whose mnemonics name the same opcode and
/// whose operand tokens parse identically as numbers and as registers
/// assemble to the same result. In particular, decimal, hexadecimal and
/// binary literals of one value assemble identically.
pub proof fn lemma_assemble_depends_on_parses(toks1: Seq<Seq<char>>, toks2: Seq<Seq<char>>)
    requires
        toks1.len() == toks2.len(),
        toks1.len() > 0 ==> Opcode::spec_from_mnemonic(toks1[0]) == Opcode::spec_from_mnemonic(
            toks2[0],
        ),
        forall|i: int|
            1 <= i < toks1.len() ==> spec_parse_number(#[trigger] toks1[i]) == spec_parse_number(
                toks2[i],
            ) && spec_parse_register(toks1[i]) == spec_parse_register(toks2[i]),
    ensures
        spec_assemble_tokens(toks1) == spec_assemble_tokens(toks2),
{
    if toks1.len() > 0 {
        if let Some(op) = Opcode::spec_from_mnemonic(toks1[0]) {
            assert(toks1.len() >= 2 ==> spec_parse_number(toks1[1]) == spec_parse_number(toks2[1])
                && spec_parse_register(toks1[1]) == spec_parse_register(toks2[1]));
            assert(toks1.len() >= 3 ==> spec_parse_number(toks1[2]) == spec_parse_number(toks2[2])
                && spec_parse_register(toks1[2]) == spec_parse_register(toks2[2]));
            assert(toks1.len() >= 4 ==> spec_parse_number(toks1[3]) == spec_parse_number(toks2[3])
                && spec_parse_register(toks1[3]) == spec_parse_register(toks2[3]));
        }
    }
}



/// `a` and `b` are the same character up to ASCII case.
pub open spec fn char_case_equiv(a: char, b: char) -> bool {
    a == b || ('A' as u32 <= a as u32 && a as u32 <= 'Z' as u32 && b as u32 == a as u32 + 32) || (
    'A' as u32 <= b as u32 && b as u32 <= 'Z' as u32 && a as u32 == b as u32 + 32)
}

/// Tokens that are equal up to ASCII case, except that the radix prefix
/// of a numeric literal is kept verbatim: `0x` and `0X` are different
/// prefixes, and only the former introduces a hexadecimal literal.
pub open spec fn token_case_equiv(t1: Seq<char>, t2: Seq<char>) -> bool {
    &&& t1.len() == t2.len()
    &&& forall|i: int| 0 <= i < t1.len() ==> char_case_equiv(t1[i], t2[i])
    &&& (t1.len() >= 2 && t1[0] == '0' ==> t2[1] == t1[1])
}

/// Matching against a lower-case word cannot tell characters of one
/// case class apart.
proof fn lemma_token_eq_ci_case_equiv(t1: Seq<char>, t2: Seq<char>, p: Seq<char>)
    requires
        t1.len() == t2.len(),
        forall|i: int| 0 <= i < t1.len() ==> char_case_equiv(t1[i], t2[i]),
        forall|i: int| 0 <= i < p.len() ==> 'a' as u32 <= (#[trigger] p[i]) as u32 <= 'z' as u32,
    ensures
        token_eq_ci(t1, p) == token_eq_ci(t2, p),
{
    if t1.len() == p.len() {
        assert forall|i: int| 0 <= i < t1.len() implies crate::opcode::char_eq_ci(t1[i], p[i])
            == crate::opcode::char_eq_ci(t2[i], p[i]) by {
            let a = t1[i];
            let b = t2[i];
            let l = p[i];
            assert(char_case_equiv(a, b));
            assert('a' as u32 <= l as u32 <= 'z' as u32);
            if a != b {
                if 'A' as u32 <= a as u32 && a as u32 <= 'Z' as u32 && b as u32 == a as u32
                    + 32 {
                    assert(a as u32 != l as u32);
                    if b as u32 == l as u32 {
                        lemma_char_cast_injective(b, l);
                    }
                } else {
                    assert('A' as u32 <= b as u32 && b as u32 <= 'Z' as u32 && a as u32 == b
                        as u32 + 32);
                    assert(b as u32 != l as u32);
                    if a as u32 == l as u32 {
                        lemma_char_cast_injective(a, l);
                    }
                }
            }
        }
    }
}

/// Mnemonic lookup cannot tell case-equivalent tokens apart.
pub proof fn lemma_mnemonic_case_equiv(t1: Seq<char>, t2: Seq<char>)
    requires
        t1.len() == t2.len(),
        forall|i: int| 0 <= i < t1.len() ==> char_case_equiv(t1[i], t2[i]),
    ensures
        Opcode::spec_from_mnemonic(t1) == Opcode::spec_from_mnemonic(t2),
{
    lemma_token_eq_ci_case_equiv(t1, t2, seq!['l', 'o', 'a', 'd']);
    lemma_token_eq_ci_case_equiv(t1, t2, seq!['s', 't', 'o', 'r', 'e']);
    lemma_token_eq_ci_case_equiv(t1, t2, seq!['m', 'o', 'v', 'e']);
    lemma_token_eq_ci_case_equiv(t1, t2, seq!['a', 'd', 'd']);
    lemma_token_eq_ci_case_equiv(t1, t2, seq!['s', 'u', 'b']);
}

/// Case-equivalent characters are the same digit, in every radix the
/// assembler accepts: hexadecimal digits may be written in either case.
proof fn lemma_digit_case_equiv(a: char, b: char)
    requires
        char_case_equiv(a, b),
    ensures
        digit_val(a) == digit_val(b),
{
}

/// Case-equivalent digit strings denote the same value.
proof fn lemma_radix_val_case_equiv(s1: Seq<char>, s2: Seq<char>, radix: u32)
    requires
        s1.len() == s2.len(),
        forall|i: int| 0 <= i < s1.len() ==> char_case_equiv(s1[i], s2[i]),
    ensures
        all_digits(s1, radix) == all_digits(s2, radix),
        radix_val(s1, radix) == radix_val(s2, radix),
    decreases s1.len(),
{
    assert forall|i: int| 0 <= i < s1.len() implies digit_val(s1[i]) == digit_val(s2[i]) by {
        lemma_digit_case_equiv(s1[i], s2[i]);
    }
    if s1.len() > 0 {
        lemma_radix_val_case_equiv(s1.drop_last(), s2.drop_last(), radix);
    }
}

/// Numeric literal parsing cannot tell case-equivalent tokens with the
/// same radix prefix apart.
pub proof fn lemma_number_case_equiv(t1: Seq<char>, t2: Seq<char>)
    requires
        token_case_equiv(t1, t2),
    ensures
        spec_parse_number(t1) == spec_parse_number(t2),
{
    if t1.len() >= 1 {
        assert(char_case_equiv(t1[0], t2[0]));
        assert(t1[0] == '0' <==> t2[0] == '0');
    }
    if t1.len() >= 2 && t1[0] == '0' && (t1[1] == 'x' || t1[1] == 'b') {
        let s1 = t1.skip(2);
        let s2 = t2.skip(2);
        assert forall|i: int| 0 <= i < s1.len() implies char_case_equiv(s1[i], s2[i]) by {
            assert(s1[i] == t1[i + 2] && s2[i] == t2[i + 2]);
        }
        lemma_radix_val_case_equiv(s1, s2, if t1[1] == 'x' {
            16
        } else {
            2
        });
    } else {
        lemma_radix_val_case_equiv(t1, t2, 10);
    }
}

/// Register parsing cannot tell case-equivalent tokens apart: the `r`
/// prefix may be either case and decimal digits have no case.
pub proof fn lemma_register_case_equiv(t1: Seq<char>, t2: Seq<char>)
    requires
        t1.len() == t2.len(),
        forall|i: int| 0 <= i < t1.len() ==> char_case_equiv(t1[i], t2[i]),
    ensures
        spec_parse_register(t1) == spec_parse_register(t2),
{
    if t1.len() >= 2 {
        let a = t1[0];
        let b = t2[0];
        assert(char_case_equiv(a, b));
        if a as u32 == 'r' as u32 {
            lemma_char_cast_injective(a, 'r');
        }
        if a as u32 == 'R' as u32 {
            lemma_char_cast_injective(a, 'R');
        }
        if b as u32 == 'r' as u32 {
            lemma_char_cast_injective(b, 'r');
        }
        if b as u32 == 'R' as u32 {
            lemma_char_cast_injective(b, 'R');
        }
        assert((t1[0] == 'r' || t1[0] == 'R') <==> (t2[0] == 'r' || t2[0] == 'R'));
        let s1 = t1.skip(1);
        let s2 = t2.skip(1);
        assert forall|i: int| 0 <= i < s1.len() implies char_case_equiv(s1[i], s2[i]) by {
            assert(s1[i] == t1[i + 1] && s2[i] == t2[i + 1]);
        }
        lemma_radix_val_case_equiv(s1, s2, 10);
    }
}

/// Case insensitivity: token sequences that agree up to ASCII case
/// (keeping radix prefixes verbatim) assemble to the same result.
pub proof fn lemma_assemble_case_equiv(toks1: Seq<Seq<char>>, toks2: Seq<Seq<char>>)
    requires
        toks1.len() == toks2.len(),
        forall|i: int| 0 <= i < toks1.len() ==> token_case_equiv(#[trigger] toks1[i], toks2[i]),
    ensures
        spec_assemble_tokens(toks1) == spec_assemble_tokens(toks2),
{
    if toks1.len() > 0 {
        lemma_mnemonic_case_equiv(toks1[0], toks2[0]);
        assert forall|i: int|
            1 <= i < toks1.len() implies spec_parse_number(#[trigger] toks1[i])
            == spec_parse_number(toks2[i]) && spec_parse_register(toks1[i]) == spec_parse_register(
            toks2[i],
        ) by {
            lemma_number_case_equiv(toks1[i], toks2[i]);
            lemma_register_case_equiv(toks1[i], toks2[i]);
        }
    }
    lemma_assemble_depends_on_parses(toks1, toks2);
}

/// Case and whitespace insensitivity together: two lines whose token
/// sequences agree up to ASCII case assemble to the same result,
/// however the tokens were separated.
pub proof fn lemma_case_whitespace_insensitive(s1: Seq<char>, s2: Seq<char>)
    requires
        spec_tokenize(s1).len() == spec_tokenize(s2).len(),
        forall|i: int|
            0 <= i < spec_tokenize(s1).len() ==> token_case_equiv(
                #[trigger] spec_tokenize(s1)[i],
                spec_tokenize(s2)[i],
            ),
    ensures
        spec_assemble(s1) == spec_assemble(s2),
{
    lemma_assemble_case_equiv(spec_tokenize(s1), spec_tokenize(s2));
}




} // verus!
