//! The instruction-encoding primitive: packing prefix, opcode, mode,
//! scale-index-base, displacement and immediate fields into raw bytes.
//!
//! Field widths are validated before packing; a value too wide for its
//! field fails closed, before any byte reaches the output stream. Omitted
//! fields contribute zero bytes.

use arrayvec::ArrayVec;

use vstd::prelude::*;

verus! {

/// Which bit-field of a packed byte was handed a value too wide for it.
#[derive(Clone, Copy, PartialEq, Eq, Structural, Debug)]
pub enum FieldOverflow {
    Mode,
    Register,
    RegisterOrMemory,
    Scale,
    Index,
    Base,
}

#[verifier::external_type_specification]
#[verifier::external_body]
#[verifier::reject_recursive_types(T)]
pub struct ExArrayVec<T, const CAP: usize>(ArrayVec<T, CAP>);

/// The bytes a four-byte-capacity buffer holds, in order.
pub uninterp spec fn av4_bytes(a: ArrayVec<u8, 4>) -> Seq<u8>;

/// The bytes an eight-byte-capacity buffer holds, in order.
pub uninterp spec fn av8_bytes(a: ArrayVec<u8, 8>) -> Seq<u8>;

/// Relies on arrayvec::ArrayVec::new and push: a buffer built by pushing
/// each byte of a slice, in order, holds exactly those bytes.
#[verifier::external_body]
fn av4_from_slice(s: &[u8]) -> (r: ArrayVec<u8, 4>)
    requires
        s@.len() <= 4,
    ensures
        av4_bytes(r) == s@,
{
    let mut a = ArrayVec::new();
    for byte in s {
        a.push(*byte);
    }
    a
}

/// Relies on arrayvec::ArrayVec::new and push: a buffer built by pushing
/// each byte of a slice, in order, holds exactly those bytes.
#[verifier::external_body]
fn av8_from_slice(s: &[u8]) -> (r: ArrayVec<u8, 8>)
    requires
        s@.len() <= 8,
    ensures
        av8_bytes(r) == s@,
{
    let mut a = ArrayVec::new();
    for byte in s {
        a.push(*byte);
    }
    a
}

/// Relies on arrayvec::ArrayVec::iter: it yields the held bytes in order.
#[verifier::external_body]
fn av4_extend_vec(v: &mut Vec<u8>, a: &ArrayVec<u8, 4>)
    ensures
        final(v)@ == old(v)@ + av4_bytes(*a),
{
    v.extend(a.iter().copied());
}

/// Relies on arrayvec::ArrayVec::iter: it yields the held bytes in order.
#[verifier::external_body]
fn av8_extend_vec(v: &mut Vec<u8>, a: &ArrayVec<u8, 8>)
    ensures
        final(v)@ == old(v)@ + av8_bytes(*a),
{
    v.extend(a.iter().copied());
}

/// An encoded instruction stream.
pub struct Bytes {
    bytes: Vec<u8>,
}

/// One instruction being packed: fields are set individually and
/// contribute bytes in the fixed order prefix, opcode, mode byte, SIB
/// byte, displacement, immediate.
pub struct InstructionBuilder {
    legacy_prefix: Option<ArrayVec<u8, 4>>,
    opcode: ArrayVec<u8, 4>,
    mod_reg_rm: Option<u8>,
    sib: Option<u8>,
    displacement: Option<ArrayVec<u8, 8>>,
    immediate: Option<ArrayVec<u8, 8>>,
}

impl InstructionBuilder {
    pub closed spec fn spec_legacy_prefix(self) -> Seq<u8> {
        match self.legacy_prefix {
            Some(a) => av4_bytes(a),
            None => Seq::<u8>::empty(),
        }
    }

    pub closed spec fn spec_opcode(self) -> Seq<u8> {
        av4_bytes(self.opcode)
    }

    pub closed spec fn spec_mod_reg_rm(self) -> Seq<u8> {
        match self.mod_reg_rm {
            Some(b) => seq![b],
            None => Seq::<u8>::empty(),
        }
    }

    pub closed spec fn spec_sib(self) -> Seq<u8> {
        match self.sib {
            Some(b) => seq![b],
            None => Seq::<u8>::empty(),
        }
    }

    pub closed spec fn spec_displacement(self) -> Seq<u8> {
        match self.displacement {
            Some(a) => av8_bytes(a),
            None => Seq::<u8>::empty(),
        }
    }

    pub closed spec fn spec_immediate(self) -> Seq<u8> {
        match self.immediate {
            Some(a) => av8_bytes(a),
            None => Seq::<u8>::empty(),
        }
    }

    /// All the instruction's bytes, in encoding order.
    pub open spec fn packed(self) -> Seq<u8> {
        self.spec_legacy_prefix() + self.spec_opcode() + self.spec_mod_reg_rm() + self.spec_sib()
            + self.spec_displacement() + self.spec_immediate()
    }

    /// Start an instruction from its opcode bytes alone.
    pub fn new(opcode: &[u8]) -> (r: Self)
        requires
            1 <= opcode@.len() <= 4,
        ensures
            r.spec_legacy_prefix().len() == 0,
            r.spec_opcode() == opcode@,
            r.spec_mod_reg_rm().len() == 0,
            r.spec_sib().len() == 0,
            r.spec_displacement().len() == 0,
            r.spec_immediate().len() == 0,
            r.packed() == opcode@,
    {
        let r = Self {
            legacy_prefix: None,
            opcode: av4_from_slice(opcode),
            mod_reg_rm: None,
            sib: None,
            displacement: None,
            immediate: None,
        };
        proof {
            assert(r.packed() =~= opcode@);
        }
        r
    }

    /// Set the mode/register/register-or-memory byte: 2 + 3 + 3 bits. A
    /// field too wide fails closed, leaving the builder unchanged.
    pub fn mod_reg_rm(&mut self, mod_: u8, reg: u8, rm: u8) -> (r: Result<(), FieldOverflow>)
        ensures
            mod_ > 3 ==> r == Result::<(), FieldOverflow>::Err(FieldOverflow::Mode) && *final(self) == *old(self),
            mod_ <= 3 && reg > 7 ==> r == Result::<(), FieldOverflow>::Err(FieldOverflow::Register)
                && *final(self) == *old(self),
            mod_ <= 3 && reg <= 7 && rm > 7 ==> r == Result::<(), FieldOverflow>::Err(
                FieldOverflow::RegisterOrMemory,
            ) && *final(self) == *old(self),
            mod_ <= 3 && reg <= 7 && rm <= 7 ==> r == Result::<(), FieldOverflow>::Ok(()) && final(self).spec_mod_reg_rm() == seq![(mod_ * 64 + reg * 8 + rm) as u8] && final(self).spec_legacy_prefix() == old(self).spec_legacy_prefix() && final(self).spec_opcode()
                == old(self).spec_opcode() && final(self).spec_sib() == old(self).spec_sib()
                && final(self).spec_displacement() == old(self).spec_displacement() && final(self).spec_immediate() == old(self).spec_immediate(),
    {
        if mod_ > 3 {
            return Err(FieldOverflow::Mode);
        }
        if reg > 7 {
            return Err(FieldOverflow::Register);
        }
        if rm > 7 {
            return Err(FieldOverflow::RegisterOrMemory);
        }
        let byte: u8 = mod_ * 64 + reg * 8 + rm;
        self.mod_reg_rm = Some(byte);
        Ok(())
    }

    /// Set the scale-index-base byte: 2 + 3 + 3 bits. A field too wide
    /// fails closed, leaving the builder unchanged.
    pub fn sib(&mut self, scale: u8, index: u8, base: u8) -> (r: Result<(), FieldOverflow>)
        ensures
            scale > 3 ==> r == Result::<(), FieldOverflow>::Err(FieldOverflow::Scale) && *final(self) == *old(self),
            scale <= 3 && index > 7 ==> r == Result::<(), FieldOverflow>::Err(FieldOverflow::Index)
                && *final(self) == *old(self),
            scale <= 3 && index <= 7 && base > 7 ==> r == Result::<(), FieldOverflow>::Err(
                FieldOverflow::Base,
            ) && *final(self) == *old(self),
            scale <= 3 && index <= 7 && base <= 7 ==> r == Result::<(), FieldOverflow>::Ok(())
                && final(self).spec_sib() == seq![(scale * 64 + index * 8 + base) as u8] && final(self).spec_legacy_prefix() == old(self).spec_legacy_prefix() && final(self).spec_opcode()
                == old(self).spec_opcode() && final(self).spec_mod_reg_rm() == old(self).spec_mod_reg_rm() && final(self).spec_displacement() == old(self).spec_displacement()
                && final(self).spec_immediate() == old(self).spec_immediate(),
    {
        if scale > 3 {
            return Err(FieldOverflow::Scale);
        }
        if index > 7 {
            return Err(FieldOverflow::Index);
        }
        if base > 7 {
            return Err(FieldOverflow::Base);
        }
        let byte: u8 = scale * 64 + index * 8 + base;
        self.sib = Some(byte);
        Ok(())
    }

    /// Set the displacement bytes (little-endian, at most 8).
    pub fn displacement(&mut self, displacement: &[u8])
        requires
            displacement@.len() <= 8,
        ensures
            final(self).spec_displacement() == displacement@,
            final(self).spec_legacy_prefix() == old(self).spec_legacy_prefix(),
            final(self).spec_opcode() == old(self).spec_opcode(),
            final(self).spec_mod_reg_rm() == old(self).spec_mod_reg_rm(),
            final(self).spec_sib() == old(self).spec_sib(),
            final(self).spec_immediate() == old(self).spec_immediate(),
    {
        self.displacement = Some(av8_from_slice(displacement));
    }

    /// Set the immediate bytes (little-endian, at most 8).
    pub fn immediate(&mut self, immediate: &[u8])
        requires
            immediate@.len() <= 8,
        ensures
            final(self).spec_immediate() == immediate@,
            final(self).spec_legacy_prefix() == old(self).spec_legacy_prefix(),
            final(self).spec_opcode() == old(self).spec_opcode(),
            final(self).spec_mod_reg_rm() == old(self).spec_mod_reg_rm(),
            final(self).spec_sib() == old(self).spec_sib(),
            final(self).spec_displacement() == old(self).spec_displacement(),
    {
        self.immediate = Some(av8_from_slice(immediate));
    }

    /// Set the legacy-prefix bytes (at most 4).
    pub fn legacy_prefix(&mut self, legacy_prefix: &[u8])
        requires
            legacy_prefix@.len() <= 4,
        ensures
            final(self).spec_legacy_prefix() == legacy_prefix@,
            final(self).spec_opcode() == old(self).spec_opcode(),
            final(self).spec_mod_reg_rm() == old(self).spec_mod_reg_rm(),
            final(self).spec_sib() == old(self).spec_sib(),
            final(self).spec_displacement() == old(self).spec_displacement(),
            final(self).spec_immediate() == old(self).spec_immediate(),
    {
        self.legacy_prefix = Some(av4_from_slice(legacy_prefix));
    }
}

impl Bytes {
    /// The bytes encoded so far, in order.
    pub closed spec fn spec_bytes(self) -> Seq<u8> {
        self.bytes@
    }

    /// An empty stream.
    pub fn new() -> (r: Self)
        ensures
            r.spec_bytes().len() == 0,
    {
        Self { bytes: Vec::new() }
    }

    /// Read access to the encoded bytes.
    pub fn as_slice(&self) -> (r: &[u8])
        ensures
            r@ == self.spec_bytes(),
    {
        self.bytes.as_slice()
    }

    /// How many bytes have been encoded.
    pub fn len(&self) -> (r: usize)
        ensures
            r == self.spec_bytes().len(),
    {
        self.bytes.len()
    }

    /// Append one packed instruction: its fields in encoding order, with
    /// omitted fields contributing nothing.
    #[verifier::rlimit(60)]
    pub fn push(&mut self, instruction: InstructionBuilder)
        ensures
            final(self).spec_bytes() == old(self).spec_bytes() + instruction.packed(),
    {
        match &instruction.legacy_prefix {
            Some(prefix) => av4_extend_vec(&mut self.bytes, prefix),
            None => (),
        }
        av4_extend_vec(&mut self.bytes, &instruction.opcode);
        match instruction.mod_reg_rm {
            Some(byte) => self.bytes.push(byte),
            None => (),
        }
        match instruction.sib {
            Some(byte) => self.bytes.push(byte),
            None => (),
        }
        match &instruction.displacement {
            Some(displacement) => av8_extend_vec(&mut self.bytes, displacement),
            None => (),
        }
        match &instruction.immediate {
            Some(immediate) => av8_extend_vec(&mut self.bytes, immediate),
            None => (),
        }
        proof {
            assert(self.bytes@ =~= old(self).bytes@ + instruction.packed());
        }
    }
}

} // verus!
