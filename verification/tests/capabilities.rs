use micro_sandbox_native::capabilities::{
    CapabilityMasks, last_capability, parse_capability_masks, parse_mask, require_cleared,
};

const STATUS: &str = "Name:\tsh\nCapInh:\t0000000000000000\nCapPrm:\t000001ffffffffff\r\nCapEff:\t000001FFFFFFFFFF\nCapBnd:\t0000000000000000\nCapAmb:\t0000000000000000\n";

#[test]
fn reads_each_capability_set_from_a_status_record() {
    let masks = parse_capability_masks(STATUS).unwrap();
    assert_eq!(
        masks,
        CapabilityMasks {
            inheritable: 0,
            permitted: 0x1ff_ffff_ffff,
            effective: 0x1ff_ffff_ffff,
            bounding: 0,
            ambient: 0,
        }
    );
}

#[test]
fn a_missing_or_malformed_mask_is_a_security_error() {
    let error = parse_mask("CapInh: 0\n", "CapInh").unwrap_err();
    assert_eq!(error.code(), "SECURITY_ERROR");
    assert_eq!(error.describe(), "security violation: cannot read CapInh");
    assert!(parse_mask("CapInh:\tzz\nCapInh:\t0\n", "CapInh").is_err());
    assert_eq!(parse_mask("CapAmbX:\t1\nCapAmb:\t2\n", "CapAmb").unwrap(), 2);
    assert_eq!(
        parse_capability_masks("CapInh:\t0\n")
            .unwrap_err()
            .describe(),
        "security violation: cannot read CapPrm"
    );
}

#[test]
fn bounds_the_last_capability_to_drop() {
    assert_eq!(last_capability(Some("40\n")), 40);
    assert_eq!(last_capability(Some("garbage")), 63);
    assert_eq!(last_capability(None), 63);
    assert_eq!(last_capability(Some("1000")), 255);
    assert_eq!(last_capability(Some("4294967296")), 63);
}

#[test]
fn requires_every_set_to_be_cleared() {
    let clear = CapabilityMasks {
        inheritable: 0,
        permitted: 0,
        effective: 0,
        bounding: 0,
        ambient: 0,
    };
    assert!(require_cleared(clear).is_ok());
    let error = require_cleared(CapabilityMasks {
        bounding: 5,
        ..clear
    })
    .unwrap_err();
    assert_eq!(
        error.describe(),
        format!(
            "security violation: capability masks remain set: {:?}",
            CapabilityMasks {
                bounding: 5,
                ..clear
            }
        )
    );
}
