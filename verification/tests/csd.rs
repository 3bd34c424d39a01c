use da_core::csd::{init, init2, ksmps_value, CsdError};
use da_core::interface::make_config;

#[test]
fn init2_adds_header_and_reads_ksmps() {
    let c = make_config("X", 2, 1, 2, 1, 0);
    let csd = "<CsoundSynthesizer>\n<CsInstruments>\nksmps = 32\n</CsInstruments>";
    let (doc, ksmps) = init2(csd, &c).unwrap();
    assert_eq!(
        doc,
        "<CsoundSynthesizer>\n<CsInstruments>\nsr=96000\nnchnls=2\nnchnls_i=1\n\nksmps = 32\n</CsInstruments>"
    );
    assert_eq!(ksmps, 32);
}

#[test]
fn init2_refusals() {
    let c = make_config("X", 1, 0, 1, 1, 0);
    assert_eq!(init2("no section", &c), Err(CsdError::MissingCsInstruments));
    assert_eq!(init2("<CsInstruments>\nsr=1", &c), Err(CsdError::MissingKsmps));
    assert_eq!(
        init2("<CsInstruments>ksmps=99999999999999999999", &c),
        Err(CsdError::BadKsmps("99999999999999999999".to_string()))
    );
}

#[test]
fn ksmps_from_capture() {
    assert_eq!(ksmps_value(None), Err(CsdError::MissingKsmps));
    assert_eq!(ksmps_value(Some("64".to_string())), Ok(64));
    assert_eq!(ksmps_value(Some("١٢".to_string())), Err(CsdError::BadKsmps("١٢".to_string())));
}

#[test]
fn init_adds_header_with_ksmps() {
    let c = make_config("Kick", 16, 0, 1, 1, 0);
    assert_eq!(
        init("a<CsInstruments>b", 64, &c),
        Some("a<CsInstruments>\nsr=768000\nksmps=64\nnchnls=1\nb".to_string())
    );
    assert_eq!(init("nothing", 64, &c), None);
}
