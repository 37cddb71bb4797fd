use netpulse_core::model::TargetPortsPreset;
use netpulse_core::ports::{expand_ports, get_target_ports, PortCatalog};

fn catalog() -> PortCatalog {
    PortCatalog {
        common: vec![443, 80, 22, 80],
        well_known: vec![1, 7, 9, 13],
        top1000: vec![8080, 3389, 8080, 21],
    }
}

#[test]
fn custom_ports_are_sorted_and_deduplicated() {
    let ports = expand_ports(&TargetPortsPreset::Custom, &vec![22, 1, 65000, 22, 1], &catalog());
    assert_eq!(ports, vec![1, 22, 65000]);
    assert_eq!(expand_ports(&TargetPortsPreset::Custom, &vec![], &catalog()), Vec::<u16>::new());
    assert_eq!(expand_ports(&TargetPortsPreset::Custom, &vec![0, 65535], &catalog()), vec![0, 65535]);
}

#[test]
fn full_preset_is_every_port_but_zero() {
    let ports = expand_ports(&TargetPortsPreset::Full, &vec![5], &catalog());
    assert_eq!(ports.len(), 65535);
    assert_eq!(ports[0], 1);
    assert_eq!(ports[65534], 65535);
    assert!(ports.windows(2).all(|w| w[0] + 1 == w[1]));
}

#[test]
fn data_presets_come_from_the_catalog() {
    let user = vec![9999];
    assert_eq!(expand_ports(&TargetPortsPreset::Common, &user, &catalog()), vec![22, 80, 443]);
    assert_eq!(expand_ports(&TargetPortsPreset::WellKnown, &user, &catalog()), vec![1, 7, 9, 13]);
    assert_eq!(expand_ports(&TargetPortsPreset::Top1000, &user, &catalog()), vec![21, 3389, 8080]);
}

#[test]
fn presets_by_name() {
    let user = vec![5, 4];
    assert_eq!(get_target_ports("Custom", &user, &catalog()), vec![4, 5]);
    assert_eq!(get_target_ports("Common", &user, &catalog()), vec![22, 80, 443]);
    assert_eq!(get_target_ports("WellKnown", &user, &catalog()), vec![1, 7, 9, 13]);
    assert_eq!(get_target_ports("Top1000", &user, &catalog()), vec![21, 3389, 8080]);
    assert_eq!(get_target_ports("Full", &user, &catalog()).len(), 65535);
    assert_eq!(get_target_ports("custom", &user, &catalog()), vec![22, 80, 443]);
    assert_eq!(get_target_ports("", &user, &catalog()), vec![22, 80, 443]);
}
