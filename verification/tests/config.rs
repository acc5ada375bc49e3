use koharu_rpc::config::{AppConfigPatch, ConfigWrite};

#[test]
fn patches_write_only_present_sections() {
    let patch: AppConfigPatch<u8, &str, bool> = AppConfigPatch { pipeline: Some(1), providers: None, typesetting: Some(true) };
    let writes = patch.into_writes();
    assert_eq!(writes.len(), 2);
    assert!(matches!(writes[0], ConfigWrite::Pipeline(1)));
    assert!(matches!(writes[1], ConfigWrite::Typesetting(true)));
    let empty: AppConfigPatch<u8, &str, bool> = AppConfigPatch { pipeline: None, providers: None, typesetting: None };
    assert!(empty.into_writes().is_empty());
    let full: AppConfigPatch<u8, &str, bool> = AppConfigPatch { pipeline: Some(2), providers: Some("p"), typesetting: Some(false) };
    let writes = full.into_writes();
    assert!(matches!(writes[..], [ConfigWrite::Pipeline(2), ConfigWrite::Providers("p"), ConfigWrite::Typesetting(false)]));
}
