use nil_tiling::version::{mk_cl_version, CLVersion};

#[test]
fn packs_major_minor_patch() {
    assert_eq!(mk_cl_version(1, 0, 0), 0x400000);
    assert_eq!(mk_cl_version(1, 2, 0), 0x402000);
    assert_eq!(mk_cl_version(3, 0, 0), 0xc00000);
    assert_eq!(mk_cl_version(2, 1, 5), 0x801005);
    // Out-of-range components are masked to their fields.
    assert_eq!(mk_cl_version(1024, 1024, 4096), 0);
}

#[test]
fn decodes_only_named_versions() {
    assert_eq!(CLVersion::from(0x400000), Some(CLVersion::Cl1_0));
    assert_eq!(CLVersion::from(mk_cl_version(2, 2, 0)), Some(CLVersion::Cl2_2));
    assert_eq!(CLVersion::from(mk_cl_version(3, 0, 0)), Some(CLVersion::Cl3_0));
    assert_eq!(CLVersion::from(0x400001), None);
    assert_eq!(CLVersion::from(0), None);
    assert_eq!(CLVersion::Cl2_1.version(), 0x801000);
}
