//! OpenCL version words: packing a major/minor/patch triple into the
//! 32-bit encoding the API hands around, and the named versions.

use vstd::prelude::*;

verus! {

/// The packed encoding: 10 bits of major, 10 of minor, 12 of patch.
pub open spec fn spec_mk_cl_version(major: u32, minor: u32, patch: u32) -> int {
    (major % 1024) * 0x400000 + (minor % 1024) * 0x1000 + patch % 4096
}

/// Packs a version triple into its 32-bit encoding.
pub fn mk_cl_version(major: u32, minor: u32, patch: u32) -> (r: u32)
    ensures
        r == spec_mk_cl_version(major, minor, patch),
{
    proof {
        assert(((major & 0x3ff) << 22u32) | ((minor & 0x3ff) << 12u32) | (patch & 0xfff) == (major
            % 1024) * 0x400000 + (minor % 1024) * 0x1000 + patch % 4096) by (bit_vector);
    }
    ((major & 0x3ff) << 22u32) | ((minor & 0x3ff) << 12u32) | (patch & 0xfff)
}

/// The OpenCL versions this library knows by name.
#[derive(Clone, Copy, Debug, PartialEq, Eq, Structural)]
pub enum CLVersion {
    Cl1_0,
    Cl1_1,
    Cl1_2,
    Cl2_0,
    Cl2_1,
    Cl2_2,
    Cl3_0,
}

impl CLVersion {
    /// The packed version word of this named version.
    pub open spec fn spec_version(self) -> int {
        match self {
            CLVersion::Cl1_0 => 0x400000,
            CLVersion::Cl1_1 => 0x401000,
            CLVersion::Cl1_2 => 0x402000,
            CLVersion::Cl2_0 => 0x800000,
            CLVersion::Cl2_1 => 0x801000,
            CLVersion::Cl2_2 => 0x802000,
            CLVersion::Cl3_0 => 0xc00000,
        }
    }

    pub fn version(self) -> (r: u32)
        ensures
            r == self.spec_version(),
    {
        match self {
            CLVersion::Cl1_0 => 0x400000,
            CLVersion::Cl1_1 => 0x401000,
            CLVersion::Cl1_2 => 0x402000,
            CLVersion::Cl2_0 => 0x800000,
            CLVersion::Cl2_1 => 0x801000,
            CLVersion::Cl2_2 => 0x802000,
            CLVersion::Cl3_0 => 0xc00000,
        }
    }

    /// Decodes a packed version word: exactly the seven named versions
    /// are accepted.
    pub fn from(val: u32) -> (r: Option<CLVersion>)
        ensures
            r matches Some(v) ==> v.spec_version() == val,
            r is Some <==> exists|v: CLVersion| #[trigger] v.spec_version() == val,
    {
        let r = match val {
            0x400000 => Some(CLVersion::Cl1_0),
            0x401000 => Some(CLVersion::Cl1_1),
            0x402000 => Some(CLVersion::Cl1_2),
            0x800000 => Some(CLVersion::Cl2_0),
            0x801000 => Some(CLVersion::Cl2_1),
            0x802000 => Some(CLVersion::Cl2_2),
            0xc00000 => Some(CLVersion::Cl3_0),
            _ => None,
        };
        proof {
            if r is Some {
                assert((r->Some_0).spec_version() == val);
            }
            if exists|v: CLVersion| #[trigger] v.spec_version() == val {
                let v = choose|v: CLVersion| #[trigger] v.spec_version() == val;
                assert(r is Some);
            }
        }
        r
    }
}

} // verus!
