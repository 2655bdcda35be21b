use sugar_config::config::ConfigData;
use sugar_config::document::DocValue;
use sugar_config::error::ConfigError;
use sugar_config::settings::{
    CandyWhitelistMintMode, EndSettingType, HiddenSettings, UploadMethod, WhitelistMintMode,
};

const TREASURY: &str = "11111111111111111111111111111111";

fn text(s: &str) -> DocValue {
    DocValue::Text(s.to_string())
}

fn num(s: &str) -> DocValue {
    DocValue::Number(s.to_string())
}

fn entry(k: &str, v: DocValue) -> (String, DocValue) {
    (k.to_string(), v)
}

fn base_entries() -> Vec<(String, DocValue)> {
    vec![
        entry("price", num("1.0")),
        entry("number", num("1000")),
        entry("solTreasuryAccount", text(TREASURY)),
        entry("goLiveDate", text("2022-01-01T00:00:00Z")),
        entry("uploadMethod", text("bundlr")),
        entry("retainAuthority", DocValue::Bool(true)),
        entry("isMutable", DocValue::Bool(false)),
    ]
}

fn doc_with(extra: Vec<(String, DocValue)>) -> DocValue {
    let mut es = base_entries();
    es.extend(extra);
    DocValue::Object(es)
}

#[test]
fn minimal_document_constructs() {
    let c = ConfigData::from_document(&doc_with(vec![])).unwrap();
    assert_eq!(c.number, 1000);
    assert_eq!(c.sol_treasury_account.bytes, vec![0u8; 32]);
    assert_eq!(c.go_live_date, "2022-01-01T00:00:00Z");
    assert_eq!(c.upload_method, UploadMethod::Bundlr);
    assert!(c.retain_authority);
    assert!(!c.is_mutable);
    assert!(c.gatekeeper.is_none());
    assert!(c.end_settings.is_none());
    assert!(c.whitelist_mint_settings.is_none());
    assert!(c.hidden_settings.is_none());
    assert!(c.spl_token.is_none());
    assert!(c.spl_token_account.is_none());
    assert_eq!(c.price_in_subunits(), 1_000_000_000);
    assert_eq!(c.resolved_go_live_timestamp().unwrap(), 1640995200);
}

#[test]
fn missing_required_field_fails() {
    let mut es = base_entries();
    es.retain(|(k, _)| k != "price");
    let r = ConfigData::from_document(&DocValue::Object(es));
    assert_eq!(r.unwrap_err(), ConfigError::MissingRequiredField("price".to_string()));
}

#[test]
fn wrong_shape_is_type_mismatch() {
    let mut es = base_entries();
    for e in es.iter_mut() {
        if e.0 == "price" {
            e.1 = text("1.0");
        }
    }
    let r = ConfigData::from_document(&DocValue::Object(es));
    assert_eq!(r.unwrap_err(), ConfigError::TypeMismatch("price".to_string()));
}

#[test]
fn bad_treasury_is_invalid_address() {
    let mut es = base_entries();
    for e in es.iter_mut() {
        if e.0 == "solTreasuryAccount" {
            e.1 = text("not-a-valid-address");
        }
    }
    let r = ConfigData::from_document(&DocValue::Object(es));
    assert_eq!(
        r.unwrap_err(),
        ConfigError::InvalidAddress("not-a-valid-address".to_string())
    );
}

#[test]
fn unknown_upload_method_fails_construction() {
    let mut es = base_entries();
    for e in es.iter_mut() {
        if e.0 == "uploadMethod" {
            e.1 = text("dropbox");
        }
    }
    let r = ConfigData::from_document(&DocValue::Object(es));
    assert_eq!(r.unwrap_err(), ConfigError::UnknownEnumValue("dropbox".to_string()));
}

#[test]
fn upload_method_is_case_insensitive() {
    let mut es = base_entries();
    for e in es.iter_mut() {
        if e.0 == "uploadMethod" {
            e.1 = text("BUNDLR");
        }
    }
    let c = ConfigData::from_document(&DocValue::Object(es)).unwrap();
    assert_eq!(c.upload_method, UploadMethod::Bundlr);
    assert_eq!(UploadMethod::from_str("Metaplex").unwrap(), UploadMethod::Metaplex);
    assert_eq!(UploadMethod::from_str("arloader").unwrap(), UploadMethod::Arloader);
}

#[test]
fn hash_must_be_exactly_32_bytes() {
    let h31 = HiddenSettings::new("n".to_string(), "u".to_string(), vec![7u8; 31]);
    assert_eq!(h31.unwrap_err(), ConfigError::InvalidFixedLength(31));
    let h33 = HiddenSettings::new("n".to_string(), "u".to_string(), vec![7u8; 33]);
    assert_eq!(h33.unwrap_err(), ConfigError::InvalidFixedLength(33));
    let h32 = HiddenSettings::new("n".to_string(), "u".to_string(), vec![7u8; 32]);
    assert!(h32.is_ok());
}

fn hash_list(n: usize) -> DocValue {
    DocValue::List((0..n).map(|i| num(&format!("{}", i % 200))).collect())
}

#[test]
fn hash_length_checked_in_document() {
    let hidden = |n: usize| {
        DocValue::Object(vec![
            entry("name", text("collection")),
            entry("uri", text("https://example.invalid/meta.json")),
            entry("hash", hash_list(n)),
        ])
    };
    let r = ConfigData::from_document(&doc_with(vec![entry("hiddenSettings", hidden(31))]));
    assert_eq!(r.unwrap_err(), ConfigError::InvalidFixedLength(31));
    let r = ConfigData::from_document(&doc_with(vec![entry("hiddenSettings", hidden(33))]));
    assert_eq!(r.unwrap_err(), ConfigError::InvalidFixedLength(33));
    let c = ConfigData::from_document(&doc_with(vec![entry("hiddenSettings", hidden(32))]))
        .unwrap();
    let h = c.hidden_settings.unwrap();
    assert_eq!(h.hash.len(), 32);
    assert_eq!(h.name, "collection");
}

#[test]
fn whitelist_discount_translates_to_subunits() {
    let whitelist = DocValue::Object(vec![
        entry("mode", text("burnEveryTime")),
        entry("mint", text(TREASURY)),
        entry("presale", DocValue::Bool(true)),
        entry("discountPrice", num("0.5")),
    ]);
    let c = ConfigData::from_document(&doc_with(vec![entry("whitelistMintSettings", whitelist)]))
        .unwrap();
    let w = c.whitelist_mint_settings.as_ref().unwrap();
    assert_eq!(w.mode, WhitelistMintMode::BurnEveryTime);
    let candy = c.into_candy_format().unwrap();
    let cw = candy.whitelist_mint_settings.unwrap();
    assert_eq!(cw.discount_price, Some(500000000));
    assert_eq!(cw.mode, CandyWhitelistMintMode::BurnEveryTime);
    assert!(cw.presale);
}

#[test]
fn end_settings_tag_and_threshold_preserved() {
    let end = DocValue::Object(vec![
        entry("end_setting_type", text("Amount")),
        entry("number", num("500")),
    ]);
    let c = ConfigData::from_document(&doc_with(vec![entry("endSettings", end)])).unwrap();
    let s = c.end_settings.unwrap();
    assert_eq!(s.end_setting_type, EndSettingType::Amount);
    assert_eq!(s.number, 500);
    // An unmatched tag is an unknown enum value.
    let end = DocValue::Object(vec![
        entry("end_setting_type", text("Sometime")),
        entry("number", num("500")),
    ]);
    let r = ConfigData::from_document(&doc_with(vec![entry("endSettings", end)]));
    assert_eq!(r.unwrap_err(), ConfigError::UnknownEnumValue("Sometime".to_string()));
}

#[test]
fn gatekeeper_fields_carry_over() {
    let gk = DocValue::Object(vec![
        entry("gatekeeper_network", text(TREASURY)),
        entry("expire_on_use", DocValue::Bool(true)),
    ]);
    let c = ConfigData::from_document(&doc_with(vec![entry("gatekeeper", gk)])).unwrap();
    let g = c.gatekeeper.as_ref().unwrap();
    assert!(g.expire_on_use);
    let candy = g.into_candy_format();
    assert_eq!(candy.gatekeeper_network.bytes, vec![0u8; 32]);
}

#[test]
fn invalid_optional_addresses_are_absent() {
    let c = ConfigData::from_document(&doc_with(vec![
        entry("splToken", text("not-a-valid-address")),
        entry("splTokenAccount", text("")),
    ]))
    .unwrap();
    assert!(c.spl_token.is_none());
    assert!(c.spl_token_account.is_none());
    let c = ConfigData::from_document(&doc_with(vec![entry("splToken", text(TREASURY))])).unwrap();
    assert_eq!(c.spl_token.unwrap().bytes, vec![0u8; 32]);
}

#[test]
fn repeated_translation_is_identical() {
    let whitelist = DocValue::Object(vec![
        entry("mode", text("neverBurn")),
        entry("mint", text(TREASURY)),
        entry("presale", DocValue::Bool(false)),
    ]);
    let gk = DocValue::Object(vec![
        entry("gatekeeper_network", text(TREASURY)),
        entry("expire_on_use", DocValue::Bool(false)),
    ]);
    let end = DocValue::Object(vec![
        entry("end_setting_type", text("Date")),
        entry("number", num("1700000000")),
    ]);
    let hidden = DocValue::Object(vec![
        entry("name", text("veiled")),
        entry("uri", text("https://example.invalid/x.json")),
        entry("hash", hash_list(32)),
    ]);
    let c = ConfigData::from_document(&doc_with(vec![
        entry("whitelistMintSettings", whitelist),
        entry("gatekeeper", gk),
        entry("endSettings", end),
        entry("hiddenSettings", hidden),
        entry("splToken", text(TREASURY)),
    ]))
    .unwrap();
    let first = c.into_candy_format().unwrap();
    let second = c.into_candy_format().unwrap();
    assert_eq!(first, second);
}

#[test]
fn translation_fails_only_on_bad_timestamp() {
    let mut es = base_entries();
    for e in es.iter_mut() {
        if e.0 == "goLiveDate" {
            e.1 = text("2022-01-01");
        }
    }
    // Construction succeeds: the raw string is retained unparsed.
    let c = ConfigData::from_document(&DocValue::Object(es)).unwrap();
    assert_eq!(
        c.resolved_go_live_timestamp().unwrap_err(),
        ConfigError::InvalidTimestamp("2022-01-01".to_string())
    );
    assert_eq!(
        c.into_candy_format().unwrap_err(),
        ConfigError::InvalidTimestamp("2022-01-01".to_string())
    );
}

#[test]
fn candy_format_carries_protocol_units() {
    let c = ConfigData::from_document(&doc_with(vec![])).unwrap();
    let candy = c.into_candy_format().unwrap();
    assert_eq!(candy.price, 1_000_000_000);
    assert_eq!(candy.number, 1000);
    assert_eq!(candy.go_live_date, 1640995200);
    assert_eq!(candy.sol_treasury_account.bytes, vec![0u8; 32]);
    assert!(candy.retain_authority);
    assert!(!candy.is_mutable);
}

#[test]
fn non_object_document_is_rejected() {
    let r = ConfigData::from_document(&DocValue::Bool(true));
    assert_eq!(r.unwrap_err(), ConfigError::TypeMismatch("document".to_string()));
}

#[test]
fn whitelist_mode_parses_case_insensitively() {
    assert_eq!(
        WhitelistMintMode::from_str("BurnEveryTime").unwrap(),
        WhitelistMintMode::BurnEveryTime
    );
    assert_eq!(WhitelistMintMode::from_str("NEVERBURN").unwrap(), WhitelistMintMode::NeverBurn);
    assert_eq!(
        WhitelistMintMode::from_str("sometimes").unwrap_err(),
        ConfigError::UnknownEnumValue("sometimes".to_string())
    );
}

#[test]
fn oversized_price_saturates() {
    let mut es = base_entries();
    for e in es.iter_mut() {
        if e.0 == "price" {
            e.1 = num("99999999999999999999999");
        }
    }
    let c = ConfigData::from_document(&DocValue::Object(es)).unwrap();
    assert_eq!(c.price_in_subunits(), u64::MAX);
}

#[test]
fn number_overflow_is_type_mismatch() {
    let mut es = base_entries();
    for e in es.iter_mut() {
        if e.0 == "number" {
            e.1 = num("99999999999999999999999");
        }
    }
    let r = ConfigData::from_document(&DocValue::Object(es));
    assert_eq!(r.unwrap_err(), ConfigError::TypeMismatch("number".to_string()));
}
