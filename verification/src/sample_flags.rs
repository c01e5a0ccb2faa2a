//! The flags of a sample in a track fragment run.
use vstd::prelude::*;

verus! {

#[derive(Debug, Copy, Clone, PartialEq, Eq, Structural)]
pub enum IsLeading {
    Unknown,
    LeadingDep,
    NotLeading,
    Leading,
}

#[derive(Debug, Copy, Clone, PartialEq, Eq, Structural)]
pub enum DependsOn {
    Unknown,
    Depends,
    NotDepends,
}

#[derive(Debug, Copy, Clone, PartialEq, Eq, Structural)]
pub enum DependedOn {
    Unknown,
    Depended,
    NotDepended,
}

#[derive(Debug, Copy, Clone, PartialEq, Eq, Structural)]
pub enum HasRedundancy {
    Unknown,
    Redundant,
    NotRedundant,
}

/// The two-bit code of each variant.
pub open spec fn is_leading_code(v: IsLeading) -> u32 {
    match v {
        IsLeading::Unknown => 0,
        IsLeading::LeadingDep => 1,
        IsLeading::NotLeading => 2,
        IsLeading::Leading => 3,
    }
}

pub open spec fn depends_on_code(v: DependsOn) -> u32 {
    match v {
        DependsOn::Unknown => 0,
        DependsOn::Depends => 1,
        DependsOn::NotDepends => 2,
    }
}

pub open spec fn depended_on_code(v: DependedOn) -> u32 {
    match v {
        DependedOn::Unknown => 0,
        DependedOn::Depended => 1,
        DependedOn::NotDepended => 2,
    }
}

pub open spec fn has_redundancy_code(v: HasRedundancy) -> u32 {
    match v {
        HasRedundancy::Unknown => 0,
        HasRedundancy::Redundant => 1,
        HasRedundancy::NotRedundant => 2,
    }
}

impl Default for IsLeading {
    fn default() -> (r: Self)
        ensures
            r == IsLeading::Unknown,
    {
        IsLeading::Unknown
    }
}

impl Default for DependsOn {
    fn default() -> (r: Self)
        ensures
            r == DependsOn::Unknown,
    {
        DependsOn::Unknown
    }
}

impl Default for DependedOn {
    fn default() -> (r: Self)
        ensures
            r == DependedOn::Unknown,
    {
        DependedOn::Unknown
    }
}

impl Default for HasRedundancy {
    fn default() -> (r: Self)
        ensures
            r == HasRedundancy::Unknown,
    {
        HasRedundancy::Unknown
    }
}

impl IsLeading {
    pub fn is_unknown(&self) -> (b: bool)
        ensures
            b <==> *self == IsLeading::Unknown,
    {
        *self == IsLeading::Unknown
    }

    /// The two-bit code of the value.
    pub fn code(&self) -> (c: u32)
        ensures
            c == is_leading_code(*self),
    {
        match self {
            IsLeading::Unknown => 0,
            IsLeading::LeadingDep => 1,
            IsLeading::NotLeading => 2,
            IsLeading::Leading => 3,
        }
    }
}

impl DependsOn {
    pub fn is_unknown(&self) -> (b: bool)
        ensures
            b <==> *self == DependsOn::Unknown,
    {
        *self == DependsOn::Unknown
    }

    /// The two-bit code of the value.
    pub fn code(&self) -> (c: u32)
        ensures
            c == depends_on_code(*self),
    {
        match self {
            DependsOn::Unknown => 0,
            DependsOn::Depends => 1,
            DependsOn::NotDepends => 2,
        }
    }
}

impl DependedOn {
    pub fn is_unknown(&self) -> (b: bool)
        ensures
            b <==> *self == DependedOn::Unknown,
    {
        *self == DependedOn::Unknown
    }

    /// The two-bit code of the value.
    pub fn code(&self) -> (c: u32)
        ensures
            c == depended_on_code(*self),
    {
        match self {
            DependedOn::Unknown => 0,
            DependedOn::Depended => 1,
            DependedOn::NotDepended => 2,
        }
    }
}

impl HasRedundancy {
    pub fn is_unknown(&self) -> (b: bool)
        ensures
            b <==> *self == HasRedundancy::Unknown,
    {
        *self == HasRedundancy::Unknown
    }

    /// The two-bit code of the value.
    pub fn code(&self) -> (c: u32)
        ensures
            c == has_redundancy_code(*self),
    {
        match self {
            HasRedundancy::Unknown => 0,
            HasRedundancy::Redundant => 1,
            HasRedundancy::NotRedundant => 2,
        }
    }
}

#[derive(Debug, Copy, Clone, PartialEq, Eq, Structural)]
pub struct SampleFlags {
    pub is_leading: IsLeading,
    pub depends_on: DependsOn,
    pub depended_on: DependedOn,
    pub has_redundancy: HasRedundancy,
    pub padding_value: u8,
    pub is_non_sync: bool,
    pub degredation_priority: u16,
}

impl Default for SampleFlags {
    fn default() -> (r: Self)
        ensures
            r == (SampleFlags {
                is_leading: IsLeading::Unknown,
                depends_on: DependsOn::Unknown,
                depended_on: DependedOn::Unknown,
                has_redundancy: HasRedundancy::Unknown,
                padding_value: 0,
                is_non_sync: false,
                degredation_priority: 0,
            }),
    {
        SampleFlags {
            is_leading: IsLeading::Unknown,
            depends_on: DependsOn::Unknown,
            depended_on: DependedOn::Unknown,
            has_redundancy: HasRedundancy::Unknown,
            padding_value: 0,
            is_non_sync: false,
            degredation_priority: 0,
        }
    }
}

/// Whether `flags` holds no reserved two-bit code (3) in the fields that
/// reserve it.
pub open spec fn sample_flags_valid(flags: u32) -> bool {
    &&& (flags >> 24u32) & 3 != 3
    &&& (flags >> 22u32) & 3 != 3
    &&& (flags >> 20u32) & 3 != 3
}

/// The sample flags that a 32-bit field encodes: each field from its bits;
/// a sample counts as not a sync sample where any bit from bit 16 up is set.
pub open spec fn sample_flags_of(flags: u32) -> SampleFlags {
    SampleFlags {
        is_leading: match (flags >> 26u32) & 3 {
            0 => IsLeading::Unknown,
            1 => IsLeading::LeadingDep,
            2 => IsLeading::NotLeading,
            _ => IsLeading::Leading,
        },
        depends_on: match (flags >> 24u32) & 3 {
            0 => DependsOn::Unknown,
            1 => DependsOn::Depends,
            _ => DependsOn::NotDepends,
        },
        depended_on: match (flags >> 22u32) & 3 {
            0 => DependedOn::Unknown,
            1 => DependedOn::Depended,
            _ => DependedOn::NotDepended,
        },
        has_redundancy: match (flags >> 20u32) & 3 {
            0 => HasRedundancy::Unknown,
            1 => HasRedundancy::Redundant,
            _ => HasRedundancy::NotRedundant,
        },
        padding_value: ((flags >> 17u32) & 7) as u8,
        is_non_sync: (flags >> 16u32) != 0,
        degredation_priority: flags as u16,
    }
}

/// The 32-bit field that encodes `s`; only the low three bits of the
/// padding value are kept.
pub open spec fn sample_flags_bits(s: SampleFlags) -> u32 {
    (is_leading_code(s.is_leading) << 26u32) | (depends_on_code(s.depends_on) << 24u32)
        | (depended_on_code(s.depended_on) << 22u32) | (has_redundancy_code(s.has_redundancy) << 20u32)
        | (((s.padding_value as u32) & 7) << 17u32) | ((if s.is_non_sync { 1u32 } else { 0u32 }) << 16u32)
        | (s.degredation_priority as u32)
}

impl SampleFlags {
    /// Decodes a 32-bit sample flags field, which must hold no reserved code.
    pub fn new(flags: u32) -> (s: SampleFlags)
        requires
            sample_flags_valid(flags),
        ensures
            s == sample_flags_of(flags),
            (flags >> 24u32) & 3 == 0 ==> s.depends_on == DependsOn::Unknown,
            (flags >> 24u32) & 3 == 1 ==> s.depends_on == DependsOn::Depends,
            (flags >> 24u32) & 3 == 2 ==> s.depends_on == DependsOn::NotDepends,
            (flags >> 22u32) & 3 == 0 ==> s.depended_on == DependedOn::Unknown,
            (flags >> 22u32) & 3 == 1 ==> s.depended_on == DependedOn::Depended,
            (flags >> 22u32) & 3 == 2 ==> s.depended_on == DependedOn::NotDepended,
            s.is_non_sync == (flags >> 16u32 != 0),
    {
        let l = (flags >> 26u32) & 3;
        let is_leading = if l == 0 {
            IsLeading::Unknown
        } else if l == 1 {
            IsLeading::LeadingDep
        } else if l == 2 {
            IsLeading::NotLeading
        } else {
            IsLeading::Leading
        };
        let d = (flags >> 24u32) & 3;
        let depends_on = if d == 0 {
            DependsOn::Unknown
        } else if d == 1 {
            DependsOn::Depends
        } else {
            DependsOn::NotDepends
        };
        let e = (flags >> 22u32) & 3;
        let depended_on = if e == 0 {
            DependedOn::Unknown
        } else if e == 1 {
            DependedOn::Depended
        } else {
            DependedOn::NotDepended
        };
        let r = (flags >> 20u32) & 3;
        let has_redundancy = if r == 0 {
            HasRedundancy::Unknown
        } else if r == 1 {
            HasRedundancy::Redundant
        } else {
            HasRedundancy::NotRedundant
        };
        let padding_value = ((flags >> 17u32) & 7) as u8;
        let is_non_sync = (flags >> 16u32) != 0;
        SampleFlags {
            is_leading,
            depends_on,
            depended_on,
            has_redundancy,
            padding_value,
            is_non_sync,
            degredation_priority: flags as u16,
        }
    }

    /// Encodes the flags as a 32-bit field.
    pub fn to_u32(&self) -> (flags: u32)
        ensures
            flags == sample_flags_bits(*self),
            (flags >> 24u32) & 3 == depends_on_code(self.depends_on),
            (flags >> 22u32) & 3 == depended_on_code(self.depended_on),
    {
        let mut flags: u32 = 0;
        flags = flags | (self.is_leading.code() << 26u32);
        flags = flags | (self.depends_on.code() << 24u32);
        flags = flags | (self.depended_on.code() << 22u32);
        flags = flags | (self.has_redundancy.code() << 20u32);
        flags = flags | (((self.padding_value as u32) & 7) << 17u32);
        flags = flags | ((if self.is_non_sync { 1u32 } else { 0u32 }) << 16u32);
        flags = flags | (self.degredation_priority as u32);
        assert(0u32 | (is_leading_code(self.is_leading) << 26u32) == (is_leading_code(self.is_leading) << 26u32)) by (bit_vector);
        proof {
            lemma_sample_flags_bits_fields(*self);
        }
        flags
    }
}

/// Encoding decoded flags gives the field back where the field has nothing
/// above bit 27 and, where anything from bit 17 up is set, bit 16 is set
/// too (the decoder folds all bits from 16 up into `is_non_sync`).
#[verifier::spinoff_prover]
pub proof fn lemma_sample_flags_bits_of(flags: u32)
    requires
        sample_flags_valid(flags),
        flags >> 28u32 == 0,
        flags >> 17u32 != 0 ==> flags & 0x10000 != 0,
    ensures
        sample_flags_bits(sample_flags_of(flags)) == flags,
{
    let l = (flags >> 26u32) & 3;
    let d = (flags >> 24u32) & 3;
    let e = (flags >> 22u32) & 3;
    let r = (flags >> 20u32) & 3;
    let ns: u32 = if (flags >> 16u32) != 0 { 1 } else { 0 };
    assert((flags >> 26u32) & 3 < 4 && (flags >> 24u32) & 3 < 4 && (flags >> 22u32) & 3 < 4
        && (flags >> 20u32) & 3 < 4 && (flags >> 17u32) & 7 < 8) by (bit_vector);
    assert(sample_flags_bits(sample_flags_of(flags)) == (l << 26u32) | (d << 24u32) | (e << 22u32) | (r << 20u32)
        | (((((flags >> 17u32) & 7) as u8) as u32 & 7) << 17u32) | (ns << 16u32) | ((flags as u16) as u32));
    assert(flags >> 28u32 == 0 && (flags >> 17u32 != 0 ==> flags & 0x10000 != 0)
        && ns == (if (flags >> 16u32) != 0 { 1u32 } else { 0u32 })
        ==> (((flags >> 26u32) & 3) << 26u32) | (((flags >> 24u32) & 3) << 24u32) | (((flags >> 22u32) & 3) << 22u32)
            | (((flags >> 20u32) & 3) << 20u32) | (((((flags >> 17u32) & 7) as u8) as u32 & 7) << 17u32)
            | (ns << 16u32) | ((flags as u16) as u32) == flags) by (bit_vector);
}

/// Decoding encoded flags gives them back where the padding value fits in
/// three bits and the sample is marked not-sync or every other field from
/// bit 17 up is zero.
#[verifier::spinoff_prover]
pub proof fn lemma_sample_flags_of_bits(s: SampleFlags)
    requires
        s.padding_value < 8,
        !s.is_non_sync ==> s.is_leading == IsLeading::Unknown && s.depends_on == DependsOn::Unknown
            && s.depended_on == DependedOn::Unknown && s.has_redundancy == HasRedundancy::Unknown
            && s.padding_value == 0,
    ensures
        sample_flags_valid(sample_flags_bits(s)),
        sample_flags_of(sample_flags_bits(s)) == s,
{
    let l = is_leading_code(s.is_leading);
    let d = depends_on_code(s.depends_on);
    let e = depended_on_code(s.depended_on);
    let r = has_redundancy_code(s.has_redundancy);
    let p = s.padding_value as u32;
    let ns: u32 = if s.is_non_sync { 1 } else { 0 };
    let q = s.degredation_priority as u32;
    let f = sample_flags_bits(s);
    assert(f == (l << 26u32) | (d << 24u32) | (e << 22u32) | (r << 20u32) | ((p & 7) << 17u32) | (ns << 16u32) | q);
    assert(l < 4 && d < 3 && e < 3 && r < 3 && p < 8 && ns < 2 && q < 0x10000
        && f == (l << 26u32) | (d << 24u32) | (e << 22u32) | (r << 20u32) | ((p & 7) << 17u32) | (ns << 16u32) | q
        ==> (f >> 26u32) & 3 == l && (f >> 24u32) & 3 == d && (f >> 22u32) & 3 == e
            && (f >> 20u32) & 3 == r && (f >> 17u32) & 7 == p && (f as u16) as u32 == q
            && ((f >> 16u32) != 0 <==> (ns == 1 || l != 0 || d != 0 || e != 0 || r != 0 || p != 0))) by (bit_vector);
}

/// Where each field of a decoded flags word comes from: `is_leading` from
/// bits 26-27, `depends_on` (sample_depends_on) from bits 24-25,
/// `depended_on` (sample_is_depended_on) from bits 22-23 and
/// `has_redundancy` from bits 20-21, each two-bit value 0, 1, 2 (and 3 for
/// `is_leading`) naming the variants in their declared order.
pub proof fn lemma_sample_flags_of_fields(flags: u32)
    requires
        sample_flags_valid(flags),
    ensures
        ((flags >> 26u32) & 3 == 0) == (sample_flags_of(flags).is_leading == IsLeading::Unknown),
        ((flags >> 26u32) & 3 == 1) == (sample_flags_of(flags).is_leading == IsLeading::LeadingDep),
        ((flags >> 26u32) & 3 == 2) == (sample_flags_of(flags).is_leading == IsLeading::NotLeading),
        ((flags >> 24u32) & 3 == 0) == (sample_flags_of(flags).depends_on == DependsOn::Unknown),
        ((flags >> 24u32) & 3 == 1) == (sample_flags_of(flags).depends_on == DependsOn::Depends),
        (flags >> 24u32) & 3 == 2 ==> sample_flags_of(flags).depends_on == DependsOn::NotDepends,
        ((flags >> 22u32) & 3 == 0) == (sample_flags_of(flags).depended_on == DependedOn::Unknown),
        ((flags >> 22u32) & 3 == 1) == (sample_flags_of(flags).depended_on == DependedOn::Depended),
        (flags >> 22u32) & 3 == 2 ==> sample_flags_of(flags).depended_on == DependedOn::NotDepended,
        ((flags >> 20u32) & 3 == 0) == (sample_flags_of(flags).has_redundancy == HasRedundancy::Unknown),
        ((flags >> 20u32) & 3 == 1) == (sample_flags_of(flags).has_redundancy == HasRedundancy::Redundant),
        (flags >> 20u32) & 3 == 2 ==> sample_flags_of(flags).has_redundancy == HasRedundancy::NotRedundant,
        sample_flags_of(flags).is_non_sync == (flags >> 16u32 != 0),
        sample_flags_of(flags).degredation_priority == flags as u16,
{
}

/// Where encoding puts each field: `is_leading` in bits 26-27, `depends_on`
/// in bits 24-25, `depended_on` in bits 22-23 and `has_redundancy` in bits
/// 20-21, each as 0, 1, 2 (or 3) by the variants' declared order; the
/// degradation priority is the low 16 bits.
#[verifier::spinoff_prover]
pub proof fn lemma_sample_flags_bits_fields(s: SampleFlags)
    ensures
        s.is_leading == IsLeading::Unknown ==> (sample_flags_bits(s) >> 26u32) & 3 == 0,
        s.is_leading == IsLeading::LeadingDep ==> (sample_flags_bits(s) >> 26u32) & 3 == 1,
        s.is_leading == IsLeading::NotLeading ==> (sample_flags_bits(s) >> 26u32) & 3 == 2,
        s.is_leading == IsLeading::Leading ==> (sample_flags_bits(s) >> 26u32) & 3 == 3,
        s.depends_on == DependsOn::Unknown ==> (sample_flags_bits(s) >> 24u32) & 3 == 0,
        s.depends_on == DependsOn::Depends ==> (sample_flags_bits(s) >> 24u32) & 3 == 1,
        s.depends_on == DependsOn::NotDepends ==> (sample_flags_bits(s) >> 24u32) & 3 == 2,
        s.depended_on == DependedOn::Unknown ==> (sample_flags_bits(s) >> 22u32) & 3 == 0,
        s.depended_on == DependedOn::Depended ==> (sample_flags_bits(s) >> 22u32) & 3 == 1,
        s.depended_on == DependedOn::NotDepended ==> (sample_flags_bits(s) >> 22u32) & 3 == 2,
        s.has_redundancy == HasRedundancy::Unknown ==> (sample_flags_bits(s) >> 20u32) & 3 == 0,
        s.has_redundancy == HasRedundancy::Redundant ==> (sample_flags_bits(s) >> 20u32) & 3 == 1,
        s.has_redundancy == HasRedundancy::NotRedundant ==> (sample_flags_bits(s) >> 20u32) & 3 == 2,
        sample_flags_bits(s) as u16 == s.degredation_priority,
{
    let l = is_leading_code(s.is_leading);
    let d = depends_on_code(s.depends_on);
    let e = depended_on_code(s.depended_on);
    let r = has_redundancy_code(s.has_redundancy);
    let p = s.padding_value as u32;
    let ns: u32 = if s.is_non_sync { 1 } else { 0 };
    let q = s.degredation_priority as u32;
    let f = sample_flags_bits(s);
    assert(f == (l << 26u32) | (d << 24u32) | (e << 22u32) | (r << 20u32) | ((p & 7) << 17u32) | (ns << 16u32) | q);
    assert(l < 4 && d < 4 && e < 4 && r < 4 && ns < 2 && q < 0x10000
        && f == (l << 26u32) | (d << 24u32) | (e << 22u32) | (r << 20u32) | ((p & 7) << 17u32) | (ns << 16u32) | q
        ==> (f >> 26u32) & 3 == l && (f >> 24u32) & 3 == d && (f >> 22u32) & 3 == e
            && (f >> 20u32) & 3 == r && (f as u16) as u32 == q) by (bit_vector);
}

} // verus!
