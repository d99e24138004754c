//! The surface syntax: one instruction per line, whitespace-split, with
//! an optional `LABEL:` prefix token. The grammar is stated by
//! `spec_parse`; `parse_instruction` is proved to decide it.

use vstd::prelude::*;
use vstd::string::StrSliceExecFns;
use vstd::string::StringExecFns;

use crate::instruction::{InstrV, Instruction, LabeledInstrV, LabeledInstruction, Mode};

verus! {

pub open spec fn is_ws(c: char) -> bool {
    c == ' ' || c == '\t' || c == '\r' || c == '\n'
}

/// Whitespace splitting, one character at a time: `cur` is the token
/// being read, `acc` the tokens already read.
pub open spec fn tokens_acc(
    s: Seq<char>,
    i: int,
    cur: Seq<char>,
    acc: Seq<Seq<char>>,
) -> Seq<Seq<char>>
    decreases s.len() - i,
{
    if i < 0 || i >= s.len() {
        if cur.len() > 0 {
            acc.push(cur)
        } else {
            acc
        }
    } else if is_ws(s[i]) {
        if cur.len() > 0 {
            tokens_acc(s, i + 1, Seq::empty(), acc.push(cur))
        } else {
            tokens_acc(s, i + 1, cur, acc)
        }
    } else {
        tokens_acc(s, i + 1, cur.push(s[i]), acc)
    }
}

pub open spec fn tokens_of(s: Seq<char>) -> Seq<Seq<char>> {
    tokens_acc(s, 0, Seq::empty(), Seq::empty())
}

/// The label carried by a `LABEL:` token: the token with every colon
/// removed.
pub open spec fn strip_colons(s: Seq<char>) -> Seq<char>
    decreases s.len(),
{
    if s.len() == 0 {
        Seq::empty()
    } else {
        strip_colons(s.drop_last()) + if s.last() == ':' {
            Seq::<char>::empty()
        } else {
            seq![s.last()]
        }
    }
}

pub open spec fn is_digit(c: char) -> bool {
    48 <= c as u32 <= 57
}

/// The value of a digit string, most significant first.
pub open spec fn digits_val(d: Seq<char>) -> int
    decreases d.len(),
{
    if d.len() == 0 {
        0
    } else {
        digits_val(d.drop_last()) * 10 + (d.last() as u32 - 48)
    }
}

pub open spec fn all_digits(d: Seq<char>) -> bool {
    forall|k: int| 0 <= k < d.len() ==> is_digit(#[trigger] d[k])
}

/// What `i32` parsing accepts: an optional sign, then at least one
/// digit, with the signed value in range.
pub open spec fn parse_i32(s: Seq<char>) -> Option<i32> {
    let signed = s.len() > 0 && (s[0] == '-' || s[0] == '+');
    let digs = if signed {
        s.drop_first()
    } else {
        s
    };
    if digs.len() == 0 || !all_digits(digs) {
        None
    } else {
        let v: int = if s[0] == '-' {
            -digits_val(digs)
        } else {
            digits_val(digs)
        };
        if i32::MIN <= v <= i32::MAX {
            Some(v as i32)
        } else {
            None
        }
    }
}

pub open spec fn mode_of(t: Seq<char>) -> Option<Mode> {
    if t == "SEQ_CST"@ {
        Some(Mode::SeqCst)
    } else if t == "REL"@ {
        Some(Mode::Rel)
    } else if t == "ACQ"@ {
        Some(Mode::Acq)
    } else if t == "REL_ACQ"@ {
        Some(Mode::RelAcq)
    } else if t == "RLX"@ {
        Some(Mode::Rlx)
    } else {
        None
    }
}

/// The parse faults, each with its surface message.
pub ghost enum ParseFault {
    BadConstant,
    BadMode,
    BadShape,
}

pub open spec fn fault_message(f: ParseFault) -> Seq<char> {
    match f {
        ParseFault::BadConstant => "Invalid constant"@,
        ParseFault::BadMode => "Invalid mode"@,
        ParseFault::BadShape => "Unknown instruction format"@,
    }
}

/// The recognized instruction shapes over the token list that follows
/// the optional label.
pub open spec fn spec_parse_instr(p: Seq<Seq<char>>) -> Result<InstrV, ParseFault> {
    if p.len() == 3 && p[1] == "="@ {
        match parse_i32(p[2]) {
            Some(v) => Ok(InstrV::Const { r: p[0], value: v }),
            None => Err(ParseFault::BadConstant),
        }
    } else if p.len() == 5 && p[1] == "="@ && p[3] == "+"@ {
        Ok(InstrV::ArithPlus { r1: p[0], r2: p[2], r3: p[4] })
    } else if p.len() == 5 && p[1] == "="@ && p[3] == "-"@ {
        Ok(InstrV::ArithMinus { r1: p[0], r2: p[2], r3: p[4] })
    } else if p.len() == 5 && p[1] == "="@ && p[3] == "*"@ {
        Ok(InstrV::ArithMul { r1: p[0], r2: p[2], r3: p[4] })
    } else if p.len() == 5 && p[1] == "="@ && p[3] == "/"@ {
        Ok(InstrV::ArithDiv { r1: p[0], r2: p[2], r3: p[4] })
    } else if p.len() == 4 && p[0] == "load"@ {
        match mode_of(p[1]) {
            Some(m) => Ok(InstrV::Load { mode: m, address: p[2], r: p[3] }),
            None => Err(ParseFault::BadMode),
        }
    } else if p.len() == 4 && p[0] == "store"@ {
        match mode_of(p[1]) {
            Some(m) => Ok(InstrV::Store { mode: m, address: p[2], r: p[3] }),
            None => Err(ParseFault::BadMode),
        }
    } else if p.len() == 7 && p[1] == ":="@ && p[2] == "cas"@ {
        match mode_of(p[3]) {
            Some(m) => Ok(
                InstrV::Cas { mode: m, address: p[4], to: p[0], exp: p[5], des: p[6] },
            ),
            None => Err(ParseFault::BadMode),
        }
    } else if p.len() == 6 && p[1] == ":="@ && p[2] == "fai"@ {
        match mode_of(p[3]) {
            Some(m) => Ok(InstrV::Fai { mode: m, address: p[4], to: p[0], inc: p[5] }),
            None => Err(ParseFault::BadMode),
        }
    } else if p.len() == 2 && p[0] == "fence"@ {
        match mode_of(p[1]) {
            Some(m) => Ok(InstrV::Fence { mode: m }),
            None => Err(ParseFault::BadMode),
        }
    } else if p.len() == 4 && p[0] == "if"@ && p[2] == "goto"@ {
        Ok(InstrV::Cond { r: p[1], label: p[3] })
    } else {
        Err(ParseFault::BadShape)
    }
}

/// The whole line: whitespace-split it, take an optional `LABEL:` first
/// token, and recognize one instruction shape. A blank line has no
/// recognizable shape.
pub open spec fn spec_parse(s: Seq<char>) -> Result<LabeledInstrV, ParseFault> {
    let parts0 = tokens_of(s);
    if parts0.len() == 0 {
        Err(ParseFault::BadShape)
    } else {
        let labeled = parts0[0].len() > 0 && parts0[0].last() == ':';
        let label: Option<Seq<char>> = if labeled {
            Some(strip_colons(parts0[0]))
        } else {
            None
        };
        let parts = if labeled {
            parts0.drop_first()
        } else {
            parts0
        };
        match spec_parse_instr(parts) {
            Ok(i) => Ok(LabeledInstrV { label, instruction: i }),
            Err(f) => Err(f),
        }
    }
}

// ---------------------------------------------------------------------------
// The executable parser.
// ---------------------------------------------------------------------------

fn tokenize(line: &str) -> (r: Vec<String>)
    ensures
        r@.map_values(|t: String| t@) == tokens_of(line@),
{
    let n = line.unicode_len();
    let mut toks: Vec<String> = Vec::new();
    let mut i: usize = 0;
    let mut start: usize = 0;
    let mut in_tok = false;
    proof {
        assert(toks@.map_values(|t: String| t@) =~= Seq::<Seq<char>>::empty());
    }
    while i < n
        invariant
            n == line@.len(),
            i <= n,
            in_tok ==> start < i,
            tokens_of(line@) == tokens_acc(
                line@,
                i as int,
                if in_tok {
                    line@.subrange(start as int, i as int)
                } else {
                    Seq::empty()
                },
                toks@.map_values(|t: String| t@),
            ),
        decreases n - i,
    {
        let ghost cur0: Seq<char> = if in_tok {
            line@.subrange(start as int, i as int)
        } else {
            Seq::empty()
        };
        let ghost acc0 = toks@.map_values(|t: String| t@);
        let c = line.get_char(i);
        if c == ' ' || c == '\t' || c == '\r' || c == '\n' {
            if in_tok {
                let t = line.substring_char(start, i).to_owned();
                proof {
                    assert(t@ == cur0);
                }
                toks.push(t);
                in_tok = false;
                proof {
                    assert(toks@.map_values(|t2: String| t2@) =~= acc0.push(cur0));
                }
            }
        } else {
            if !in_tok {
                start = i;
                in_tok = true;
            }
            proof {
                assert(line@.subrange(start as int, i + 1) =~= cur0.push(line@[i as int]));
            }
        }
        i = i + 1;
    }
    if in_tok {
        let t = line.substring_char(start, n).to_owned();
        toks.push(t);
        proof {
            assert(toks@.map_values(|t2: String| t2@) =~= toks@.map_values(
                |t2: String| t2@,
            ).drop_last().push(line@.subrange(start as int, n as int)));
        }
    }
    toks
}

fn parse_mode(t: &String) -> (r: Option<Mode>)
    ensures
        r == mode_of(t@),
{
    if *t == "SEQ_CST".to_owned() {
        Some(Mode::SeqCst)
    } else if *t == "REL".to_owned() {
        Some(Mode::Rel)
    } else if *t == "ACQ".to_owned() {
        Some(Mode::Acq)
    } else if *t == "REL_ACQ".to_owned() {
        Some(Mode::RelAcq)
    } else if *t == "RLX".to_owned() {
        Some(Mode::Rlx)
    } else {
        None
    }
}

proof fn lemma_digits_val_nonneg(d: Seq<char>)
    requires
        all_digits(d),
    ensures
        digits_val(d) >= 0,
    decreases d.len(),
{
    if d.len() > 0 {
        assert(all_digits(d.drop_last()));
        lemma_digits_val_nonneg(d.drop_last());
    }
}

/// A digit string is worth at least its prefix.
proof fn lemma_digits_val_mono(d: Seq<char>, k: int)
    requires
        0 <= k <= d.len(),
        all_digits(d),
    ensures
        digits_val(d.take(k)) <= digits_val(d),
    decreases d.len() - k,
{
    if k < d.len() {
        lemma_digits_val_mono(d, k + 1);
        assert(d.take(k + 1).drop_last() =~= d.take(k));
        assert(all_digits(d.take(k)));
        lemma_digits_val_nonneg(d.take(k));
        assert(digits_val(d.take(k + 1)) == digits_val(d.take(k)) * 10 + (d.take(k + 1).last()
            as u32 - 48));
    } else {
        assert(d.take(k) =~= d);
    }
}

#[verifier::rlimit(50)]
fn parse_i32_exec(s: &String) -> (r: Option<i32>)
    ensures
        r == parse_i32(s@),
{
    let n = s.as_str().unicode_len();
    if n == 0 {
        return None;
    }
    let c0 = s.as_str().get_char(0);
    let start: usize = if c0 == '-' || c0 == '+' {
        1
    } else {
        0
    };
    let neg = c0 == '-';
    let ghost digs: Seq<char> = if start == 1 {
        s@.drop_first()
    } else {
        s@
    };
    proof {
        assert(digs =~= s@.subrange(start as int, n as int));
    }
    if start == n {
        return None;
    }
    let mut i = start;
    let mut mag: i64 = 0;
    while i < n
        invariant
            n == s@.len(),
            start <= i <= n,
            start < n,
            0 < s@.len(),
            (start == 1) <==> (s@[0] == '-' || s@[0] == '+'),
            start == 0 || start == 1,
            neg == (s@[0] == '-'),
            digs == s@.subrange(start as int, n as int),
            digs == (if s@[0] == '-' || s@[0] == '+' {
                s@.drop_first()
            } else {
                s@
            }),
            forall|k: int| 0 <= k < i - start ==> is_digit(#[trigger] digs[k]),
            mag == digits_val(digs.take(i - start)),
            0 <= mag <= 0x8000_0000,
        decreases n - i,
    {
        let c = s.as_str().get_char(i);
        let u = c as u32;
        if u < 48 || u > 57 {
            proof {
                assert(digs[i - start] == s@[i as int]);
                assert(!all_digits(digs));
            }
            return None;
        }
        proof {
            assert(digs[i - start] == s@[i as int]);
            assert(digs.take(i + 1 - start).drop_last() =~= digs.take(i - start));
            assert(digs.take(i + 1 - start).last() == digs[i - start]);
        }
        mag = mag * 10 + ((u - 48) as i64);
        if mag > 0x8000_0000 {
            proof {
                assert(mag == digits_val(digs.take(i + 1 - start)));
                if all_digits(digs) {
                    lemma_digits_val_mono(digs, i + 1 - start);
                    assert(digits_val(digs) >= mag);
                    assert(digits_val(digs) > 0x8000_0000);
                    assert(parse_i32(s@) is None);
                } else {
                    assert(parse_i32(s@) is None);
                }
            }
            return None;
        }
        i = i + 1;
    }
    proof {
        assert(digs.take(n - start) =~= digs);
        assert(all_digits(digs));
        assert(mag == digits_val(digs));
        assert(digs.len() > 0);
    }
    if neg {
        Some((-mag) as i32)
    } else {
        if mag > 0x7fff_ffff {
            return None;
        }
        Some(mag as i32)
    }
}

/// Build the label from its token, dropping every colon.
fn strip_label(t: &String) -> (r: String)
    ensures
        r@ == strip_colons(t@),
{
    let n = t.as_str().unicode_len();
    let mut label = String::new();
    let mut i: usize = 0;
    while i < n
        invariant
            n == t@.len(),
            i <= n,
            label@ == strip_colons(t@.take(i as int)),
        decreases n - i,
    {
        let c = t.as_str().get_char(i);
        proof {
            assert(t@.take(i + 1).drop_last() =~= t@.take(i as int));
            assert(t@.take(i + 1).last() == t@[i as int]);
        }
        if c != ':' {
            let piece = t.as_str().substring_char(i, i + 1);
            proof {
                assert(piece@ =~= seq![t@[i as int]]);
            }
            label.append(piece);
        }
        i = i + 1;
    }
    proof {
        assert(t@.take(n as int) =~= t@);
    }
    label
}

/// Parse one line. Returns exactly what the grammar `spec_parse` allows,
/// with the surface message of the first fault otherwise.
#[verifier::rlimit(100)]
pub fn parse_instruction(line: &str) -> (r: Result<LabeledInstruction, String>)
    ensures
        r matches Ok(li) ==> spec_parse(line@) == Ok::<LabeledInstrV, ParseFault>(li@),
        r matches Err(e) ==> (spec_parse(line@) matches Err(f) && e@ == fault_message(f)),
        r is Ok <==> spec_parse(line@) is Ok,
{
    let toks = tokenize(line);
    let ghost parts0 = toks@.map_values(|t: String| t@);
    if toks.len() == 0 {
        return Err("Unknown instruction format".to_owned());
    }
    let t0_len = toks[0].as_str().unicode_len();
    let labeled = t0_len > 0 && toks[0].as_str().get_char(t0_len - 1) == ':';
    let label: Option<String> = if labeled {
        Some(strip_label(&toks[0]))
    } else {
        None
    };
    let off: usize = if labeled {
        1
    } else {
        0
    };
    let ghost parts = if labeled {
        parts0.drop_first()
    } else {
        parts0
    };
    let m = toks.len() - off;
    proof {
        assert(parts.len() == m);
        assert(forall|k: int| 0 <= k < m ==> parts[k] == #[trigger] toks@[off + k]@);
    }
    let lit_eq = "=".to_owned();
    let lit_plus = "+".to_owned();
    let lit_minus = "-".to_owned();
    let lit_mul = "*".to_owned();
    let lit_div = "/".to_owned();
    let lit_load = "load".to_owned();
    let lit_store = "store".to_owned();
    let lit_assign = ":=".to_owned();
    let lit_cas = "cas".to_owned();
    let lit_fai = "fai".to_owned();
    let lit_fence = "fence".to_owned();
    let lit_if = "if".to_owned();
    let lit_goto = "goto".to_owned();
    let instruction: Instruction = if m == 3 && toks[off + 1] == lit_eq {
        match parse_i32_exec(&toks[off + 2]) {
            Some(v) => Instruction::Const { r: toks[off].clone(), value: v },
            None => {
                return Err("Invalid constant".to_owned());
            },
        }
    } else if m == 5 && toks[off + 1] == lit_eq && toks[off + 3] == lit_plus {
        Instruction::ArithPlus {
            r1: toks[off].clone(),
            r2: toks[off + 2].clone(),
            r3: toks[off + 4].clone(),
        }
    } else if m == 5 && toks[off + 1] == lit_eq && toks[off + 3] == lit_minus {
        Instruction::ArithMinus {
            r1: toks[off].clone(),
            r2: toks[off + 2].clone(),
            r3: toks[off + 4].clone(),
        }
    } else if m == 5 && toks[off + 1] == lit_eq && toks[off + 3] == lit_mul {
        Instruction::ArithMul {
            r1: toks[off].clone(),
            r2: toks[off + 2].clone(),
            r3: toks[off + 4].clone(),
        }
    } else if m == 5 && toks[off + 1] == lit_eq && toks[off + 3] == lit_div {
        Instruction::ArithDiv {
            r1: toks[off].clone(),
            r2: toks[off + 2].clone(),
            r3: toks[off + 4].clone(),
        }
    } else if m == 4 && toks[off] == lit_load {
        match parse_mode(&toks[off + 1]) {
            Some(mode) => Instruction::Load {
                mode,
                address: toks[off + 2].clone(),
                r: toks[off + 3].clone(),
            },
            None => {
                return Err("Invalid mode".to_owned());
            },
        }
    } else if m == 4 && toks[off] == lit_store {
        match parse_mode(&toks[off + 1]) {
            Some(mode) => Instruction::Store {
                mode,
                address: toks[off + 2].clone(),
                r: toks[off + 3].clone(),
            },
            None => {
                return Err("Invalid mode".to_owned());
            },
        }
    } else if m == 7 && toks[off + 1] == lit_assign && toks[off + 2] == lit_cas {
        match parse_mode(&toks[off + 3]) {
            Some(mode) => Instruction::Cas {
                mode,
                address: toks[off + 4].clone(),
                to: toks[off].clone(),
                exp: toks[off + 5].clone(),
                des: toks[off + 6].clone(),
            },
            None => {
                return Err("Invalid mode".to_owned());
            },
        }
    } else if m == 6 && toks[off + 1] == lit_assign && toks[off + 2] == lit_fai {
        match parse_mode(&toks[off + 3]) {
            Some(mode) => Instruction::Fai {
                mode,
                address: toks[off + 4].clone(),
                to: toks[off].clone(),
                inc: toks[off + 5].clone(),
            },
            None => {
                return Err("Invalid mode".to_owned());
            },
        }
    } else if m == 2 && toks[off] == lit_fence {
        match parse_mode(&toks[off + 1]) {
            Some(mode) => Instruction::Fence { mode },
            None => {
                return Err("Invalid mode".to_owned());
            },
        }
    } else if m == 4 && toks[off] == lit_if && toks[off + 2] == lit_goto {
        Instruction::Cond { r: toks[off + 1].clone(), label: toks[off + 3].clone() }
    } else {
        return Err("Unknown instruction format".to_owned());
    };
    Ok(LabeledInstruction { label, instruction })
}

} // verus!
