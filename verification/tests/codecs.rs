use svd_encoder::access::Access;
use svd_encoder::modified_write_values::ModifiedWriteValues;

#[test]
fn access_round_trip() {
    let variants = [
        Access::ReadOnly,
        Access::ReadWrite,
        Access::ReadWriteOnce,
        Access::WriteOnce,
        Access::WriteOnly,
    ];
    for v in variants {
        assert_eq!(Access::from_str(v.to_str()), Some(v));
    }
}

#[test]
fn access_to_str_injective() {
    let variants = [
        Access::ReadOnly,
        Access::ReadWrite,
        Access::ReadWriteOnce,
        Access::WriteOnce,
        Access::WriteOnly,
    ];
    for (i, a) in variants.iter().enumerate() {
        for (j, b) in variants.iter().enumerate() {
            if i != j {
                assert_ne!(a.to_str(), b.to_str());
            }
        }
    }
}

#[test]
fn access_canonical_strings() {
    assert_eq!(Access::ReadOnly.to_str(), "read-only");
    assert_eq!(Access::ReadWrite.to_str(), "read-write");
    assert_eq!(Access::ReadWriteOnce.to_str(), "read-writeOnce");
    assert_eq!(Access::WriteOnce.to_str(), "writeOnce");
    assert_eq!(Access::WriteOnly.to_str(), "write-only");
}

#[test]
fn access_from_str_rejects_unknown() {
    assert_eq!(Access::from_str(""), None);
    assert_eq!(Access::from_str("read"), None);
    assert_eq!(Access::from_str("READ-ONLY"), None);
    assert_eq!(Access::from_str("read-only "), None);
}

#[test]
fn access_predicates() {
    assert!(Access::ReadOnly.can_read());
    assert!(Access::ReadWrite.can_read());
    assert!(Access::ReadWriteOnce.can_read());
    assert!(!Access::WriteOnce.can_read());
    assert!(!Access::WriteOnly.can_read());

    assert!(!Access::ReadOnly.can_write());
    assert!(Access::ReadWrite.can_write());
    assert!(Access::ReadWriteOnce.can_write());
    assert!(Access::WriteOnce.can_write());
    assert!(Access::WriteOnly.can_write());
}

#[test]
fn access_default_is_read_write() {
    assert_eq!(Access::default(), Access::ReadWrite);
}

#[test]
fn mwv_round_trip() {
    let variants = [
        ModifiedWriteValues::OneToClear,
        ModifiedWriteValues::OneToSet,
        ModifiedWriteValues::OneToToggle,
        ModifiedWriteValues::ZeroToClear,
        ModifiedWriteValues::ZeroToSet,
        ModifiedWriteValues::ZeroToToggle,
        ModifiedWriteValues::Clear,
        ModifiedWriteValues::SetAll,
        ModifiedWriteValues::Modify,
    ];
    for v in variants {
        assert_eq!(ModifiedWriteValues::from_str(v.to_str()), Some(v));
    }
}

#[test]
fn mwv_to_str_injective() {
    let variants = [
        ModifiedWriteValues::OneToClear,
        ModifiedWriteValues::OneToSet,
        ModifiedWriteValues::OneToToggle,
        ModifiedWriteValues::ZeroToClear,
        ModifiedWriteValues::ZeroToSet,
        ModifiedWriteValues::ZeroToToggle,
        ModifiedWriteValues::Clear,
        ModifiedWriteValues::SetAll,
        ModifiedWriteValues::Modify,
    ];
    for (i, a) in variants.iter().enumerate() {
        for (j, b) in variants.iter().enumerate() {
            if i != j {
                assert_ne!(a.to_str(), b.to_str());
            }
        }
    }
}

#[test]
fn mwv_canonical_strings() {
    assert_eq!(ModifiedWriteValues::SetAll.to_str(), "set");
    assert_eq!(ModifiedWriteValues::Clear.to_str(), "clear");
    assert_eq!(ModifiedWriteValues::Modify.to_str(), "modify");
    assert_eq!(ModifiedWriteValues::OneToClear.to_str(), "oneToClear");
    assert_eq!(ModifiedWriteValues::ZeroToToggle.to_str(), "zeroToToggle");
}

#[test]
fn mwv_from_str_rejects_unknown() {
    assert_eq!(ModifiedWriteValues::from_str(""), None);
    assert_eq!(ModifiedWriteValues::from_str("Set"), None);
    assert_eq!(ModifiedWriteValues::from_str("one-to-clear"), None);
}

#[test]
fn mwv_default_is_modify() {
    assert_eq!(ModifiedWriteValues::default(), ModifiedWriteValues::Modify);
}
