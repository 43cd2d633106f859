use vstd::prelude::*;
use vstd::slice::{slice_subrange, slice_to_vec};

use crate::instructions::{arity, op_id, op_of_mnemonic, Instruction};
use crate::text::{
    byte_literal, clean, clean_line, count, count_byte, find, find_byte, lemma_find_byte_bounds,
    parse_byte, COMMA, NEWLINE, QUOTE, SPACE,
};

verus! {

/// What went wrong while assembling.
#[derive(Debug, Clone, Copy, PartialEq, Eq, Structural)]
pub enum AsmErrorKind {
    UnknownMnemonic,
    ArityMismatch,
    InvalidOperandLiteral,
    DuplicateLabel,
    UnknownLabel,
    ProgramOverflow,
}

/// An assembly failure and the line (counted from 1) that caused it.
#[derive(Debug, Clone, Copy, PartialEq, Eq, Structural)]
pub struct AsmError {
    pub kind: AsmErrorKind,
    pub line: usize,
}

/// The assembler between lines: the image written so far, the write cursor,
/// the labels declared (name and address, in order of declaration) and the
/// operand bytes left for a label (offset, label name, line of the reference).
pub struct Asm {
    pub image: Seq<u8>,
    pub cursor: int,
    pub labels: Seq<(Seq<u8>, u8)>,
    pub refs: Seq<(int, Seq<u8>, usize)>,
}

/// Nothing written yet: 256 zero bytes and no labels.
pub open spec fn asm_start() -> Asm {
    Asm { image: Seq::new(256, |i: int| 0u8), cursor: 0, labels: Seq::empty(), refs: Seq::empty() }
}

/// The error of a kind on the line with index `idx` (counted from 0).
pub open spec fn error_at(kind: AsmErrorKind, idx: nat) -> AsmError {
    AsmError { kind, line: (idx + 1) as usize }
}

/// The address of the first label called `name`.
pub open spec fn lookup(labels: Seq<(Seq<u8>, u8)>, name: Seq<u8>) -> Option<u8>
    decreases labels.len(),
{
    if labels.len() == 0 {
        None
    } else if labels[0].0 == name {
        Some(labels[0].1)
    } else {
        lookup(labels.drop_first(), name)
    }
}

/// Writes one byte at the cursor and advances it.
pub open spec fn emit(st: Asm, b: u8) -> Asm {
    Asm { image: st.image.update(st.cursor, b), cursor: st.cursor + 1, ..st }
}

/// How many comma-separated operands a non-empty operand list holds.
pub open spec fn operand_count(args: Seq<u8>) -> nat {
    if args.len() == 0 {
        0
    } else {
        1 + count_byte(args, COMMA)
    }
}

/// The operand text of an instruction line: what follows its first space.
pub open spec fn operand_text(code: Seq<u8>) -> Seq<u8> {
    let sp = find_byte(code, SPACE, 0);
    if sp < code.len() {
        code.subrange(sp + 1, code.len() as int)
    } else {
        Seq::empty()
    }
}

/// One cleaned line, with index `idx`, applied to the assembler state.
/// A label declared once all 256 bytes are written gets address 0, where
/// the address space wraps.
pub open spec fn asm_line(st: Asm, code: Seq<u8>, idx: nat) -> Result<Asm, AsmError> {
    if code.len() == 0 {
        Ok(st)
    } else if code[0] == QUOTE {
        let name = code.drop_first();
        if lookup(st.labels, name) is Some {
            Err(error_at(AsmErrorKind::DuplicateLabel, idx))
        } else {
            Ok(Asm { labels: st.labels.push((name, (st.cursor % 256) as u8)), ..st })
        }
    } else {
        let args = operand_text(code);
        match op_of_mnemonic(code.subrange(0, find_byte(code, SPACE, 0))) {
            None => Err(error_at(AsmErrorKind::UnknownMnemonic, idx)),
            Some(op) => if operand_count(args) != arity(op) {
                Err(error_at(AsmErrorKind::ArityMismatch, idx))
            } else if st.cursor >= 256 {
                Err(error_at(AsmErrorKind::ProgramOverflow, idx))
            } else if arity(op) == 0 {
                Ok(emit(st, op_id(op)))
            } else if args[0] == QUOTE {
                if st.cursor + 1 >= 256 {
                    Err(error_at(AsmErrorKind::ProgramOverflow, idx))
                } else {
                    let t = emit(emit(st, op_id(op)), 0);
                    Ok(
                        Asm {
                            refs: t.refs.push((st.cursor + 1, args.drop_first(), (idx + 1) as usize)),
                            ..t
                        },
                    )
                }
            } else {
                match byte_literal(args) {
                    None => Err(error_at(AsmErrorKind::InvalidOperandLiteral, idx)),
                    Some(v) => if st.cursor + 1 >= 256 {
                        Err(error_at(AsmErrorKind::ProgramOverflow, idx))
                    } else {
                        Ok(emit(emit(st, op_id(op)), v))
                    },
                }
            },
        }
    }
}

/// The lines of `src` from the one starting at `pos` (with index `idx`) on,
/// applied in order; the first error stops.
pub open spec fn asm_from(src: Seq<u8>, pos: int, idx: nat, st: Asm) -> Result<Asm, AsmError>
    decreases src.len() + 1 - pos,
    via asm_from_decreases
{
    if pos < 0 || pos >= src.len() {
        Ok(st)
    } else {
        let e = find_byte(src, NEWLINE, pos);
        match asm_line(st, clean(src.subrange(pos, e)), idx) {
            Err(x) => Err(x),
            Ok(t) => asm_from(src, e + 1, idx + 1, t),
        }
    }
}

#[via_fn]
proof fn asm_from_decreases(src: Seq<u8>, pos: int, idx: nat, st: Asm) {
    if 0 <= pos < src.len() {
        lemma_find_byte_bounds(src, NEWLINE, pos);
    }
}

/// Patches each reference, in order, with the address of its label.
pub open spec fn resolve(
    image: Seq<u8>,
    refs: Seq<(int, Seq<u8>, usize)>,
    labels: Seq<(Seq<u8>, u8)>,
) -> Result<Seq<u8>, AsmError>
    decreases refs.len(),
{
    if refs.len() == 0 {
        Ok(image)
    } else {
        match lookup(labels, refs[0].1) {
            None => Err(AsmError { kind: AsmErrorKind::UnknownLabel, line: refs[0].2 }),
            Some(a) => resolve(image.update(refs[0].0, a), refs.drop_first(), labels),
        }
    }
}

/// The program image that a source text assembles to, or the first error.
pub open spec fn assembled(src: Seq<u8>) -> Result<Seq<u8>, AsmError> {
    match asm_from(src, 0, 0, asm_start()) {
        Err(e) => Err(e),
        Ok(st) => resolve(st.image, st.refs, st.labels),
    }
}

/// The image holds 256 bytes, the cursor stays within it, and the operand
/// bytes left for labels lie below the cursor in increasing order.
pub open spec fn asm_wf(st: Asm) -> bool {
    &&& st.image.len() == 256
    &&& 0 <= st.cursor <= 256
    &&& forall|k: int| 0 <= k < st.refs.len() ==> 0 <= #[trigger] st.refs[k].0 < st.cursor
    &&& forall|j: int, k: int|
        0 <= j < k < st.refs.len() ==> #[trigger] st.refs[j].0 < #[trigger] st.refs[k].0
}

proof fn lemma_asm_line_wf(st: Asm, code: Seq<u8>, idx: nat)
    requires
        asm_wf(st),
        asm_line(st, code, idx) is Ok,
    ensures
        asm_wf(asm_line(st, code, idx)->Ok_0),
{
    let t = asm_line(st, code, idx)->Ok_0;
    if code.len() > 0 && code[0] != QUOTE {
        let args = operand_text(code);
        let op = op_of_mnemonic(code.subrange(0, find_byte(code, SPACE, 0)))->Some_0;
        if arity(op) == 1 && args[0] == QUOTE {
            assert(forall|k: int| 0 <= k < st.refs.len() ==> t.refs[k] == st.refs[k]);
            assert(t.refs[st.refs.len() as int].0 == st.cursor + 1);
        }
    }
}

proof fn lemma_asm_from_wf(src: Seq<u8>, pos: int, idx: nat, st: Asm)
    requires
        asm_wf(st),
        asm_from(src, pos, idx, st) is Ok,
    ensures
        asm_wf(asm_from(src, pos, idx, st)->Ok_0),
    decreases src.len() + 1 - pos,
{
    if 0 <= pos < src.len() {
        let e = find_byte(src, NEWLINE, pos);
        lemma_find_byte_bounds(src, NEWLINE, pos);
        lemma_asm_line_wf(st, clean(src.subrange(pos, e)), idx);
        lemma_asm_from_wf(src, e + 1, idx + 1, asm_line(st, clean(src.subrange(pos, e)), idx)->Ok_0);
    }
}

struct LabelDef {
    name: Vec<u8>,
    addr: u8,
}

struct Reference {
    at: usize,
    name: Vec<u8>,
    line: usize,
}

spec fn label_model(d: LabelDef) -> (Seq<u8>, u8) {
    (d.name@, d.addr)
}

spec fn ref_model(r: Reference) -> (int, Seq<u8>, usize) {
    (r.at as int, r.name@, r.line)
}

struct Assembler {
    image: [u8; 256],
    cursor: usize,
    labels: Vec<LabelDef>,
    refs: Vec<Reference>,
}

impl View for Assembler {
    type V = Asm;

    closed spec fn view(&self) -> Asm {
        Asm {
            image: self.image@,
            cursor: self.cursor as int,
            labels: self.labels@.map_values(|d: LabelDef| label_model(d)),
            refs: self.refs@.map_values(|r: Reference| ref_model(r)),
        }
    }
}

/// The address of the first label called `name`.
fn find_label(labels: &Vec<LabelDef>, name: &[u8]) -> (r: Option<u8>)
    ensures
        r == lookup(labels@.map_values(|d: LabelDef| label_model(d)), name@),
{
    let ghost m = labels@.map_values(|d: LabelDef| label_model(d));
    assert(m.subrange(0, m.len() as int) =~= m);
    let mut i: usize = 0;
    while i < labels.len()
        invariant
            i <= labels@.len(),
            m == labels@.map_values(|d: LabelDef| label_model(d)),
            lookup(m, name@) == lookup(m.subrange(i as int, m.len() as int), name@),
        decreases labels@.len() - i,
    {
        let ghost rest = m.subrange(i as int, m.len() as int);
        assert(rest.drop_first() =~= m.subrange(i + 1, m.len() as int));
        if crate::text::same_bytes(labels[i].name.as_slice(), name) {
            return Some(labels[i].addr);
        }
        i = i + 1;
    }
    None
}

impl Assembler {
    fn new() -> (r: Assembler)
        ensures
            r@ == asm_start(),
    {
        let r = Assembler { image: [0; 256], cursor: 0, labels: Vec::new(), refs: Vec::new() };
        assert(r@.image =~= asm_start().image);
        assert(r@.labels =~= asm_start().labels);
        assert(r@.refs =~= asm_start().refs);
        r
    }

    fn put(&mut self, b: u8)
        requires
            old(self).cursor < 256,
        ensures
            final(self)@ == emit(old(self)@, b),
    {
        self.image[self.cursor] = b;
        self.cursor = self.cursor + 1;
        assert(self@.labels =~= emit(old(self)@, b).labels);
    }

    /// Applies one cleaned line.
    fn line(&mut self, code: &[u8], idx: usize) -> (r: Result<(), AsmError>)
        requires
            idx < usize::MAX,
            asm_wf(old(self)@),
        ensures
            match asm_line(old(self)@, code@, idx as nat) {
                Ok(t) => r is Ok && final(self)@ == t,
                Err(e) => r == Err::<(), AsmError>(e),
            },
            asm_wf(final(self)@),
    {
        proof {
            if asm_line(self@, code@, idx as nat) is Ok {
                lemma_asm_line_wf(self@, code@, idx as nat);
            }
        }
        let line = idx + 1;
        if code.len() == 0 {
            return Ok(());
        }
        if code[0] == QUOTE {
            let name = slice_subrange(code, 1, code.len());
            assert(name@ =~= code@.drop_first());
            if find_label(&self.labels, name).is_some() {
                return Err(AsmError { kind: AsmErrorKind::DuplicateLabel, line });
            }
            let ghost before = self@;
            self.labels.push(LabelDef { name: slice_to_vec(name), addr: (self.cursor % 256) as u8 });
            assert(self@.labels =~= before.labels.push((name@, (before.cursor % 256) as u8)));
            return Ok(());
        }
        let sp = find(code, SPACE, 0);
        let mnemonic = slice_subrange(code, 0, sp);
        let args = if sp < code.len() {
            slice_subrange(code, sp + 1, code.len())
        } else {
            slice_subrange(code, 0, 0)
        };
        assert(args@ =~= operand_text(code@));
        let op = match Instruction::from_mnemonic(mnemonic) {
            None => return Err(AsmError { kind: AsmErrorKind::UnknownMnemonic, line }),
            Some(op) => op,
        };
        // Arities are at most one, so any two or more operands are the same mismatch.
        let n_args: usize = if args.len() == 0 {
            0
        } else if count(args, COMMA) == 0 {
            1
        } else {
            2
        };
        if n_args != op.num_args() as usize {
            return Err(AsmError { kind: AsmErrorKind::ArityMismatch, line });
        }
        if self.cursor >= 256 {
            return Err(AsmError { kind: AsmErrorKind::ProgramOverflow, line });
        }
        if op.num_args() == 0 {
            self.put(op.id());
            return Ok(());
        }
        if args[0] == QUOTE {
            if self.cursor + 1 >= 256 {
                return Err(AsmError { kind: AsmErrorKind::ProgramOverflow, line });
            }
            let at = self.cursor + 1;
            self.put(op.id());
            self.put(0);
            let target = slice_subrange(args, 1, args.len());
            assert(target@ =~= args@.drop_first());
            let ghost before = self@;
            self.refs.push(Reference { at, name: slice_to_vec(target), line });
            assert(self@.refs =~= before.refs.push((at as int, target@, line)));
            return Ok(());
        }
        match parse_byte(args) {
            None => Err(AsmError { kind: AsmErrorKind::InvalidOperandLiteral, line }),
            Some(v) => {
                if self.cursor + 1 >= 256 {
                    return Err(AsmError { kind: AsmErrorKind::ProgramOverflow, line });
                }
                self.put(op.id());
                self.put(v);
                Ok(())
            },
        }
    }
}

proof fn lemma_resolve_patches(
    image: Seq<u8>,
    refs: Seq<(int, Seq<u8>, usize)>,
    labels: Seq<(Seq<u8>, u8)>,
)
    requires
        forall|k: int| 0 <= k < refs.len() ==> 0 <= #[trigger] refs[k].0 < image.len(),
        forall|j: int, k: int| 0 <= j < k < refs.len() ==> #[trigger] refs[j].0 < #[trigger] refs[k].0,
        resolve(image, refs, labels) is Ok,
    ensures
        resolve(image, refs, labels)->Ok_0.len() == image.len(),
        forall|k: int|
            0 <= k < refs.len() ==> lookup(labels, #[trigger] refs[k].1) == Some(
                resolve(image, refs, labels)->Ok_0[refs[k].0],
            ),
        forall|i: int|
            0 <= i < image.len() && (forall|k: int| 0 <= k < refs.len() ==> #[trigger] refs[k].0 != i)
                ==> resolve(image, refs, labels)->Ok_0[i] == image[i],
    decreases refs.len(),
{
    if refs.len() > 0 {
        let a = lookup(labels, refs[0].1)->Some_0;
        let rest = refs.drop_first();
        let next = image.update(refs[0].0, a);
        assert forall|k: int| 0 <= k < rest.len() implies #[trigger] rest[k].0 > refs[0].0 by {
            assert(rest[k] == refs[k + 1]);
        }
        lemma_resolve_patches(next, rest, labels);
        let out = resolve(image, refs, labels)->Ok_0;
        assert(resolve(image, refs, labels) == resolve(next, rest, labels));
        assert(next.len() == image.len());
        assert forall|k: int| 0 <= k < refs.len() implies lookup(labels, #[trigger] refs[k].1) == Some(
            out[refs[k].0],
        ) by {
            if k > 0 {
                assert(rest[k - 1] == refs[k]);
            } else {
                assert(forall|j: int| 0 <= j < rest.len() ==> #[trigger] rest[j].0 != refs[0].0);
                assert(out[refs[0].0] == next[refs[0].0]);
            }
        }
        assert forall|i: int|
            0 <= i < image.len() && (forall|k: int| 0 <= k < refs.len() ==> #[trigger] refs[k].0 != i)
            implies out[i] == image[i] by {
            assert(refs[0].0 != i);
            assert forall|j: int| 0 <= j < rest.len() implies #[trigger] rest[j].0 != i by {
                assert(rest[j] == refs[j + 1]);
            }
            assert(out[i] == next[i]);
        }
    }
}

/// Label resolution does not depend on where a declaration stands: in an
/// assembled program, the operand byte of every label reference holds the
/// address at which that label is declared, whether the declaration comes
/// before or after the reference.
pub proof fn lemma_references_resolve(src: Seq<u8>)
    requires
        assembled(src) is Ok,
    ensures
        ({
            let st = asm_from(src, 0, 0, asm_start())->Ok_0;
            forall|k: int|
                0 <= k < st.refs.len() ==> lookup(st.labels, #[trigger] st.refs[k].1) == Some(
                    assembled(src)->Ok_0[st.refs[k].0],
                )
        }),
{
    lemma_asm_from_wf(src, 0, 0, asm_start());
    let st = asm_from(src, 0, 0, asm_start())->Ok_0;
    lemma_resolve_patches(st.image, st.refs, st.labels);
}

/// Assembly never writes past the image: a line that needs a byte beyond
/// offset 255 fails with ProgramOverflow, and every state reached keeps its
/// cursor within the 256 bytes.
pub proof fn lemma_overflow_fails(st: Asm, code: Seq<u8>, idx: nat, op: Instruction)
    requires
        asm_wf(st),
        code.len() > 0,
        code[0] != QUOTE,
        op_of_mnemonic(code.subrange(0, find_byte(code, SPACE, 0))) == Some(op),
        operand_count(operand_text(code)) == arity(op),
        arity(op) == 0 || operand_text(code)[0] == QUOTE || byte_literal(operand_text(code)) is Some,
        st.cursor + 1 + arity(op) > 256,
    ensures
        asm_line(st, code, idx) == Err::<Asm, AsmError>(error_at(AsmErrorKind::ProgramOverflow, idx)),
{
}

/// Every state the assembler reaches on its way through a source text keeps
/// the image at 256 bytes and the cursor within it.
pub proof fn lemma_cursor_in_image(src: Seq<u8>)
    requires
        asm_from(src, 0, 0, asm_start()) is Ok,
    ensures
        asm_wf(asm_from(src, 0, 0, asm_start())->Ok_0),
{
    lemma_asm_from_wf(src, 0, 0, asm_start());
}

/// Assembles source text into a 256-byte program image.
pub fn assemble(src: &[u8]) -> (r: Result<[u8; 256], AsmError>)
    ensures
        match (r, assembled(src@)) {
            (Ok(img), Ok(s)) => img@ == s,
            (Err(e), Err(f)) => e == f,
            _ => false,
        },
{
    let mut state = Assembler::new();
    let mut pos: usize = 0;
    let mut idx: usize = 0;
    while pos < src.len()
        invariant
            pos <= src@.len(),
            idx <= pos,
            asm_wf(state@),
            asm_from(src@, 0, 0, asm_start()) == asm_from(src@, pos as int, idx as nat, state@),
        decreases src@.len() - pos,
    {
        let e = find(src, NEWLINE, pos);
        let raw = slice_subrange(src, pos, e);
        let code = clean_line(raw);
        match state.line(code, idx) {
            Err(x) => return Err(x),
            Ok(()) => {},
        }
        if e < src.len() {
            pos = e + 1;
        } else {
            pos = src.len();
            assert(asm_from(src@, e + 1, (idx + 1) as nat, state@) == Ok::<Asm, AsmError>(state@));
        }
        idx = idx + 1;
    }
    let ghost done = state@;
    assert(asm_from(src@, pos as int, idx as nat, done) == Ok::<Asm, AsmError>(done));
    let mut image = state.image;
    let mut k: usize = 0;
    assert(done.refs.subrange(0, done.refs.len() as int) =~= done.refs);
    while k < state.refs.len()
        invariant
            state@ == done,
            asm_wf(done),
            assembled(src@) == resolve(done.image, done.refs, done.labels),
            k <= done.refs.len(),
            image@.len() == 256,
            resolve(image@, done.refs.subrange(k as int, done.refs.len() as int), done.labels)
                == resolve(done.image, done.refs, done.labels),
        decreases done.refs.len() - k,
    {
        let ghost rest = done.refs.subrange(k as int, done.refs.len() as int);
        assert(rest.drop_first() =~= done.refs.subrange(k + 1, done.refs.len() as int));
        assert(rest[0] == ref_model(state.refs[k as int]));
        match find_label(&state.labels, state.refs[k].name.as_slice()) {
            None => {
                let err = AsmError { kind: AsmErrorKind::UnknownLabel, line: state.refs[k].line };
                assert(lookup(done.labels, rest[0].1) is None);
                assert(resolve(image@, rest, done.labels) == Err::<Seq<u8>, AsmError>(err));
                return Err(err);
            },
            Some(a) => {
                assert(0 <= done.refs[k as int].0 < 256);
                image[state.refs[k].at] = a;
            },
        }
        k = k + 1;
    }
    Ok(image)
}

} // verus!
