use vstd::prelude::*;

use crate::text::same_bytes;

verus! {

/// Number of opcodes in the catalog; every id below it names an instruction.
pub const NUM_INSTRUCTIONS: u8 = 26;

/// The closed catalog of opcodes. The position of a variant is its opcode id.
#[derive(Debug, Clone, Copy, PartialEq, Eq, Structural)]
pub enum Instruction {
    NoOp,
    /// Set IP to the operand.
    Jump,
    /// Set IP to the operand when B is not zero.
    JumpINZ,
    /// Set A to the operand.
    SetA,
    /// Set B to the operand.
    SetB,
    /// Swap A and B.
    Swap,
    /// Write B to RAM at the operand address.
    WriteRam,
    /// Read RAM at the operand address into B.
    ReadRam,
    /// Write B to RAM at address A.
    WriteRamA,
    /// Read RAM at address A into B.
    ReadRamA,
    /// Write the operand to VRAM at address A.
    WriteVRam,
    /// Read VRAM at address A into B.
    ReadVRam,
    /// B becomes INP masked by the operand.
    ReadInp,
    /// B becomes B + A, wrapping.
    Add,
    /// B becomes B * A, wrapping.
    Mul,
    /// B becomes B mod A.
    Mod,
    /// B becomes B | A.
    Or,
    /// B becomes B & A.
    And,
    /// B becomes B ^ A.
    Xor,
    /// B becomes !B.
    Not,
    /// B is shifted left by the operand.
    Shl,
    /// B is shifted right by the operand.
    Shr,
    /// A becomes A + 1, wrapping.
    Increment,
    /// A becomes A - 1, wrapping.
    Decrement,
    /// Every VRAM cell becomes the operand.
    FillVRam,
    /// End of a frame: hand VRAM to the host.
    Flush,
}

/// The opcode id of an instruction.
pub open spec fn op_id(op: Instruction) -> u8 {
    match op {
        Instruction::NoOp => 0,
        Instruction::Jump => 1,
        Instruction::JumpINZ => 2,
        Instruction::SetA => 3,
        Instruction::SetB => 4,
        Instruction::Swap => 5,
        Instruction::WriteRam => 6,
        Instruction::ReadRam => 7,
        Instruction::WriteRamA => 8,
        Instruction::ReadRamA => 9,
        Instruction::WriteVRam => 10,
        Instruction::ReadVRam => 11,
        Instruction::ReadInp => 12,
        Instruction::Add => 13,
        Instruction::Mul => 14,
        Instruction::Mod => 15,
        Instruction::Or => 16,
        Instruction::And => 17,
        Instruction::Xor => 18,
        Instruction::Not => 19,
        Instruction::Shl => 20,
        Instruction::Shr => 21,
        Instruction::Increment => 22,
        Instruction::Decrement => 23,
        Instruction::FillVRam => 24,
        Instruction::Flush => 25,
    }
}

/// The instruction with a given id, for ids in the catalog.
pub open spec fn op_of_id(id: u8) -> Option<Instruction> {
    if id < NUM_INSTRUCTIONS {
        Some(choose|op: Instruction| op_id(op) == id)
    } else {
        None
    }
}

/// How many operand bytes follow the opcode byte.
pub open spec fn arity(op: Instruction) -> u8 {
    match op {
        Instruction::Jump | Instruction::JumpINZ | Instruction::SetA | Instruction::SetB
        | Instruction::WriteRam | Instruction::ReadRam | Instruction::WriteVRam
        | Instruction::ReadInp | Instruction::Shl | Instruction::Shr | Instruction::FillVRam => 1,
        _ => 0,
    }
}

/// The source-text name of an instruction, as ASCII bytes.
pub open spec fn mnemonic_of(op: Instruction) -> Seq<u8> {
    match op {
        Instruction::NoOp => seq!['n' as u8, 'o' as u8, 'o' as u8, 'p' as u8],
        Instruction::Jump => seq!['j' as u8, 'm' as u8, 'p' as u8],
        Instruction::JumpINZ => seq!['j' as u8, 'n' as u8, 'z' as u8],
        Instruction::SetA => seq!['s' as u8, 't' as u8, 'a' as u8],
        Instruction::SetB => seq!['s' as u8, 't' as u8, 'b' as u8],
        Instruction::Swap => seq!['s' as u8, 'w' as u8, 'p' as u8],
        Instruction::WriteRam => seq!['m' as u8, 'v' as u8, 'r' as u8],
        Instruction::ReadRam => seq!['r' as u8, 'd' as u8, 'r' as u8],
        Instruction::WriteRamA => seq!['m' as u8, 'v' as u8, 'a' as u8],
        Instruction::ReadRamA => seq!['r' as u8, 'd' as u8, 'a' as u8],
        Instruction::WriteVRam => seq!['m' as u8, 'v' as u8, 'v' as u8],
        Instruction::ReadVRam => seq!['r' as u8, 'e' as u8, 'v' as u8],
        Instruction::ReadInp => seq!['r' as u8, 'd' as u8, 'i' as u8],
        Instruction::Add => seq!['a' as u8, 'd' as u8, 'd' as u8],
        Instruction::Mul => seq!['m' as u8, 'u' as u8, 'l' as u8],
        Instruction::Mod => seq!['m' as u8, 'o' as u8, 'd' as u8],
        Instruction::Or => seq!['o' as u8, 'r' as u8],
        Instruction::And => seq!['a' as u8, 'n' as u8, 'd' as u8],
        Instruction::Xor => seq!['x' as u8, 'o' as u8, 'r' as u8],
        Instruction::Not => seq!['n' as u8, 'o' as u8, 't' as u8],
        Instruction::Shl => seq!['s' as u8, 'h' as u8, 'l' as u8],
        Instruction::Shr => seq!['s' as u8, 'h' as u8, 'r' as u8],
        Instruction::Increment => seq!['i' as u8, 'n' as u8, 'c' as u8],
        Instruction::Decrement => seq!['d' as u8, 'e' as u8, 'c' as u8],
        Instruction::FillVRam => seq!['f' as u8, 'l' as u8, 'v' as u8],
        Instruction::Flush => seq!['f' as u8, 's' as u8, 'h' as u8],
    }
}

/// The instruction whose mnemonic is `s`, if there is one.
pub open spec fn op_of_mnemonic(s: Seq<u8>) -> Option<Instruction> {
    if exists|op: Instruction| mnemonic_of(op) == s {
        Some(choose|op: Instruction| mnemonic_of(op) == s)
    } else {
        None
    }
}

/// Tells the mnemonics apart by length and first three bytes.
spec fn signature(s: Seq<u8>) -> (int, u8, u8, u8) {
    (s.len() as int, s[0], s[1], s[2])
}

proof fn lemma_signature_determines(op: Instruction)
    ensures
        forall|other: Instruction|
            signature(mnemonic_of(other)) == signature(mnemonic_of(op)) ==> other == op,
{
}

proof fn lemma_id_injective()
    ensures
        forall|a: Instruction, b: Instruction| op_id(a) == op_id(b) ==> a == b,
{
}


impl Instruction {
    /// How many operand bytes follow this opcode.
    pub fn num_args(self) -> (r: u8)
        ensures
            r == arity(self),
            r <= 1,
    {
        match self {
            Instruction::Jump | Instruction::JumpINZ | Instruction::SetA | Instruction::SetB
            | Instruction::WriteRam | Instruction::ReadRam | Instruction::WriteVRam
            | Instruction::ReadInp | Instruction::Shl | Instruction::Shr
            | Instruction::FillVRam => 1,
            _ => 0,
        }
    }

    /// The opcode byte of this instruction.
    pub fn id(self) -> (r: u8)
        ensures
            r == op_id(self),
            r < NUM_INSTRUCTIONS,
    {
        match self {
            Instruction::NoOp => 0,
            Instruction::Jump => 1,
            Instruction::JumpINZ => 2,
            Instruction::SetA => 3,
            Instruction::SetB => 4,
            Instruction::Swap => 5,
            Instruction::WriteRam => 6,
            Instruction::ReadRam => 7,
            Instruction::WriteRamA => 8,
            Instruction::ReadRamA => 9,
            Instruction::WriteVRam => 10,
            Instruction::ReadVRam => 11,
            Instruction::ReadInp => 12,
            Instruction::Add => 13,
            Instruction::Mul => 14,
            Instruction::Mod => 15,
            Instruction::Or => 16,
            Instruction::And => 17,
            Instruction::Xor => 18,
            Instruction::Not => 19,
            Instruction::Shl => 20,
            Instruction::Shr => 21,
            Instruction::Increment => 22,
            Instruction::Decrement => 23,
            Instruction::FillVRam => 24,
            Instruction::Flush => 25,
        }
    }

    /// Decodes an opcode byte; ids outside the catalog give `None`.
    pub fn from_id(id: u8) -> (r: Option<Instruction>)
        ensures
            r == op_of_id(id),
            r matches Some(op) ==> op_id(op) == id,
    {
        proof {
            lemma_id_injective();
        }
        let r = match id {
            0 => Some(Instruction::NoOp),
            1 => Some(Instruction::Jump),
            2 => Some(Instruction::JumpINZ),
            3 => Some(Instruction::SetA),
            4 => Some(Instruction::SetB),
            5 => Some(Instruction::Swap),
            6 => Some(Instruction::WriteRam),
            7 => Some(Instruction::ReadRam),
            8 => Some(Instruction::WriteRamA),
            9 => Some(Instruction::ReadRamA),
            10 => Some(Instruction::WriteVRam),
            11 => Some(Instruction::ReadVRam),
            12 => Some(Instruction::ReadInp),
            13 => Some(Instruction::Add),
            14 => Some(Instruction::Mul),
            15 => Some(Instruction::Mod),
            16 => Some(Instruction::Or),
            17 => Some(Instruction::And),
            18 => Some(Instruction::Xor),
            19 => Some(Instruction::Not),
            20 => Some(Instruction::Shl),
            21 => Some(Instruction::Shr),
            22 => Some(Instruction::Increment),
            23 => Some(Instruction::Decrement),
            24 => Some(Instruction::FillVRam),
            25 => Some(Instruction::Flush),
            _ => None,
        };
        proof {
            if let Some(op) = r {
                assert(op_id(op) == id);
            }
        }
        r
    }

    /// The mnemonic of this instruction, as ASCII bytes.
    pub fn mnemonic(self) -> (r: Vec<u8>)
        ensures
            r@ == mnemonic_of(self),
    {
        match self {
            Instruction::NoOp => vec!['n' as u8, 'o' as u8, 'o' as u8, 'p' as u8],
            Instruction::Jump => vec!['j' as u8, 'm' as u8, 'p' as u8],
            Instruction::JumpINZ => vec!['j' as u8, 'n' as u8, 'z' as u8],
            Instruction::SetA => vec!['s' as u8, 't' as u8, 'a' as u8],
            Instruction::SetB => vec!['s' as u8, 't' as u8, 'b' as u8],
            Instruction::Swap => vec!['s' as u8, 'w' as u8, 'p' as u8],
            Instruction::WriteRam => vec!['m' as u8, 'v' as u8, 'r' as u8],
            Instruction::ReadRam => vec!['r' as u8, 'd' as u8, 'r' as u8],
            Instruction::WriteRamA => vec!['m' as u8, 'v' as u8, 'a' as u8],
            Instruction::ReadRamA => vec!['r' as u8, 'd' as u8, 'a' as u8],
            Instruction::WriteVRam => vec!['m' as u8, 'v' as u8, 'v' as u8],
            Instruction::ReadVRam => vec!['r' as u8, 'e' as u8, 'v' as u8],
            Instruction::ReadInp => vec!['r' as u8, 'd' as u8, 'i' as u8],
            Instruction::Add => vec!['a' as u8, 'd' as u8, 'd' as u8],
            Instruction::Mul => vec!['m' as u8, 'u' as u8, 'l' as u8],
            Instruction::Mod => vec!['m' as u8, 'o' as u8, 'd' as u8],
            Instruction::Or => vec!['o' as u8, 'r' as u8],
            Instruction::And => vec!['a' as u8, 'n' as u8, 'd' as u8],
            Instruction::Xor => vec!['x' as u8, 'o' as u8, 'r' as u8],
            Instruction::Not => vec!['n' as u8, 'o' as u8, 't' as u8],
            Instruction::Shl => vec!['s' as u8, 'h' as u8, 'l' as u8],
            Instruction::Shr => vec!['s' as u8, 'h' as u8, 'r' as u8],
            Instruction::Increment => vec!['i' as u8, 'n' as u8, 'c' as u8],
            Instruction::Decrement => vec!['d' as u8, 'e' as u8, 'c' as u8],
            Instruction::FillVRam => vec!['f' as u8, 'l' as u8, 'v' as u8],
            Instruction::Flush => vec!['f' as u8, 's' as u8, 'h' as u8],
        }
    }

    /// Looks a mnemonic up in the catalog.
    pub fn from_mnemonic(name: &[u8]) -> (r: Option<Instruction>)
        ensures
            r == op_of_mnemonic(name@),
    {
        let mut id: u8 = 0;
        while id < NUM_INSTRUCTIONS
            invariant
                id <= NUM_INSTRUCTIONS,
                forall|op: Instruction| op_id(op) < id ==> mnemonic_of(op) != name@,
            decreases NUM_INSTRUCTIONS - id,
        {
            let op = Instruction::from_id(id).unwrap();
            let m = op.mnemonic();
            if same_bytes(name, m.as_slice()) {
                proof {
                    lemma_signature_determines(op);
                }
                return Some(op);
            }
            id = id + 1;
        }
        None
    }
}

/// Every mnemonic of the catalog names its own instruction, and every
/// instruction's id decodes back to it.
pub proof fn lemma_round_trip(op: Instruction)
    ensures
        op_of_mnemonic(mnemonic_of(op)) == Some(op),
        op_of_id(op_id(op)) == Some(op),
{
    lemma_signature_determines(op);
    lemma_id_injective();
}

} // verus!
