use vstd::prelude::*;

use crate::address::{Address, spec_decode};
use crate::document::{DocValue, obj_get, find_key};
use crate::error::ConfigError;
use crate::price::{
    Price, price_wf, spec_parse_price, parse_price, spec_subunits, price_as_lamports, all_digits,
    dec_val,
};
use crate::settings::{
    UploadMethod, spec_upload_method, WhitelistMintMode, spec_whitelist_mode, EndSettingType,
    EndSettings, GatekeeperConfig, WhitelistMintSettings, HiddenSettings, CandyGatekeeperConfig,
    CandyEndSettings, CandyWhitelistMintSettings, CandyHiddenSettings, whitelist_wf, hidden_wf,
    clone_address,
};
use crate::timestamp::spec_parse_timestamp;
use crate::address::{parse_address, parse_optional_address, address_wf};
use crate::document::str_eq;

verus! {

/// Where the command-line surface finds the cluster and signer; plain
/// strings, carried through unchanged.
#[derive(Debug, Clone, PartialEq, Eq)]
pub struct SolanaConfig {
    pub json_rpc_url: String,
    pub keypair_path: String,
    pub commitment: String,
}

/// The abstract content of an error value.
pub enum ErrView {
    InvalidAddress(Seq<char>),
    InvalidTimestamp(Seq<char>),
    UnknownEnumValue(Seq<char>),
    MissingRequiredField(Seq<char>),
    TypeMismatch(Seq<char>),
    InvalidFixedLength(int),
}

pub open spec fn err_view(e: ConfigError) -> ErrView {
    match e {
        ConfigError::InvalidAddress(m) => ErrView::InvalidAddress(m@),
        ConfigError::InvalidTimestamp(m) => ErrView::InvalidTimestamp(m@),
        ConfigError::UnknownEnumValue(m) => ErrView::UnknownEnumValue(m@),
        ConfigError::MissingRequiredField(m) => ErrView::MissingRequiredField(m@),
        ConfigError::TypeMismatch(m) => ErrView::TypeMismatch(m@),
        ConfigError::InvalidFixedLength(n) => ErrView::InvalidFixedLength(n as int),
    }
}

pub struct GatekeeperView {
    pub gatekeeper_network: Seq<u8>,
    pub expire_on_use: bool,
}

pub struct WhitelistView {
    pub mode: WhitelistMintMode,
    pub mint: Seq<u8>,
    pub presale: bool,
    pub discount_price: Option<Price>,
}

pub struct HiddenView {
    pub name: Seq<char>,
    pub uri: Seq<char>,
    pub hash: Seq<u8>,
}

/// The abstract content of a validated configuration.
pub struct ConfigView {
    pub price: Price,
    pub number: u64,
    pub gatekeeper: Option<GatekeeperView>,
    pub sol_treasury_account: Seq<u8>,
    pub spl_token_account: Option<Seq<u8>>,
    pub spl_token: Option<Seq<u8>>,
    pub go_live_date: Seq<char>,
    pub end_settings: Option<EndSettings>,
    pub whitelist_mint_settings: Option<WhitelistView>,
    pub hidden_settings: Option<HiddenView>,
    pub upload_method: UploadMethod,
    pub retain_authority: bool,
    pub is_mutable: bool,
}

/// A document number field read as a whole unsigned count.
pub open spec fn spec_u64_digits(t: Seq<char>) -> Option<u64> {
    if t.len() >= 1 && all_digits(t) && dec_val(t) <= u64::MAX {
        Some(dec_val(t) as u64)
    } else {
        None
    }
}

pub open spec fn f_price(es: Seq<(String, DocValue)>) -> Result<Price, ErrView> {
    match obj_get(es, "price"@) {
        None => Err(ErrView::MissingRequiredField("price"@)),
        Some(DocValue::Number(t)) => match spec_parse_price(t@) {
            Some(p) => Ok(p),
            None => Err(ErrView::TypeMismatch("price"@)),
        },
        Some(_) => Err(ErrView::TypeMismatch("price"@)),
    }
}

pub open spec fn f_number(es: Seq<(String, DocValue)>) -> Result<u64, ErrView> {
    match obj_get(es, "number"@) {
        None => Err(ErrView::MissingRequiredField("number"@)),
        Some(DocValue::Number(t)) => match spec_u64_digits(t@) {
            Some(v) => Ok(v),
            None => Err(ErrView::TypeMismatch("number"@)),
        },
        Some(_) => Err(ErrView::TypeMismatch("number"@)),
    }
}

pub open spec fn spec_parse_gatekeeper(v: DocValue) -> Result<GatekeeperView, ErrView> {
    match v {
        DocValue::Object(es) => match obj_get(es@, "gatekeeper_network"@) {
            None => Err(ErrView::MissingRequiredField("gatekeeper_network"@)),
            Some(DocValue::Text(t)) => match spec_decode(t@) {
                None => Err(ErrView::InvalidAddress(t@)),
                Some(b) => match obj_get(es@, "expire_on_use"@) {
                    None => Err(ErrView::MissingRequiredField("expire_on_use"@)),
                    Some(DocValue::Bool(x)) => Ok(
                        GatekeeperView { gatekeeper_network: b, expire_on_use: x },
                    ),
                    Some(_) => Err(ErrView::TypeMismatch("expire_on_use"@)),
                },
            },
            Some(_) => Err(ErrView::TypeMismatch("gatekeeper_network"@)),
        },
        _ => Err(ErrView::TypeMismatch("gatekeeper"@)),
    }
}

pub open spec fn f_gatekeeper(es: Seq<(String, DocValue)>) -> Result<
    Option<GatekeeperView>,
    ErrView,
> {
    match obj_get(es, "gatekeeper"@) {
        None => Ok(None),
        Some(DocValue::Null) => Ok(None),
        Some(v) => match spec_parse_gatekeeper(v) {
            Ok(g) => Ok(Some(g)),
            Err(e) => Err(e),
        },
    }
}

pub open spec fn f_treasury(es: Seq<(String, DocValue)>) -> Result<Seq<u8>, ErrView> {
    match obj_get(es, "solTreasuryAccount"@) {
        None => Err(ErrView::MissingRequiredField("solTreasuryAccount"@)),
        Some(DocValue::Text(t)) => match spec_decode(t@) {
            None => Err(ErrView::InvalidAddress(t@)),
            Some(b) => Ok(b),
        },
        Some(_) => Err(ErrView::TypeMismatch("solTreasuryAccount"@)),
    }
}

/// The deliberate leniency: a missing, null, ill-shaped or undecodable
/// optional address is absence, never an error.
pub open spec fn f_opt_address(es: Seq<(String, DocValue)>, key: Seq<char>) -> Option<Seq<u8>> {
    match obj_get(es, key) {
        Some(DocValue::Text(t)) => spec_decode(t@),
        _ => None,
    }
}

pub open spec fn f_go_live(es: Seq<(String, DocValue)>) -> Result<Seq<char>, ErrView> {
    match obj_get(es, "goLiveDate"@) {
        None => Err(ErrView::MissingRequiredField("goLiveDate"@)),
        Some(DocValue::Text(t)) => Ok(t@),
        Some(_) => Err(ErrView::TypeMismatch("goLiveDate"@)),
    }
}

pub open spec fn spec_parse_end_settings(v: DocValue) -> Result<EndSettings, ErrView> {
    match v {
        DocValue::Object(es) => match obj_get(es@, "end_setting_type"@) {
            None => Err(ErrView::MissingRequiredField("end_setting_type"@)),
            Some(DocValue::Text(t)) => {
                let ty = if t@ == "Date"@ {
                    Some(EndSettingType::Date)
                } else if t@ == "Amount"@ {
                    Some(EndSettingType::Amount)
                } else {
                    None
                };
                match ty {
                    None => Err(ErrView::UnknownEnumValue(t@)),
                    Some(ty) => match obj_get(es@, "number"@) {
                        None => Err(ErrView::MissingRequiredField("number"@)),
                        Some(DocValue::Number(nt)) => match spec_u64_digits(nt@) {
                            Some(v) => Ok(EndSettings { end_setting_type: ty, number: v }),
                            None => Err(ErrView::TypeMismatch("number"@)),
                        },
                        Some(_) => Err(ErrView::TypeMismatch("number"@)),
                    },
                }
            },
            Some(_) => Err(ErrView::TypeMismatch("end_setting_type"@)),
        },
        _ => Err(ErrView::TypeMismatch("endSettings"@)),
    }
}

pub open spec fn f_end_settings(es: Seq<(String, DocValue)>) -> Result<
    Option<EndSettings>,
    ErrView,
> {
    match obj_get(es, "endSettings"@) {
        None => Ok(None),
        Some(DocValue::Null) => Ok(None),
        Some(v) => match spec_parse_end_settings(v) {
            Ok(s) => Ok(Some(s)),
            Err(e) => Err(e),
        },
    }
}

pub open spec fn spec_parse_whitelist(v: DocValue) -> Result<WhitelistView, ErrView> {
    match v {
        DocValue::Object(es) => match obj_get(es@, "mode"@) {
            None => Err(ErrView::MissingRequiredField("mode"@)),
            Some(DocValue::Text(mt)) => match spec_whitelist_mode(mt@) {
                None => Err(ErrView::UnknownEnumValue(mt@)),
                Some(mode) => match obj_get(es@, "mint"@) {
                    None => Err(ErrView::MissingRequiredField("mint"@)),
                    Some(DocValue::Text(at)) => match spec_decode(at@) {
                        None => Err(ErrView::InvalidAddress(at@)),
                        Some(mint) => match obj_get(es@, "presale"@) {
                            None => Err(ErrView::MissingRequiredField("presale"@)),
                            Some(DocValue::Bool(presale)) => match obj_get(es@, "discountPrice"@) {
                                None => Ok(
                                    WhitelistView { mode, mint, presale, discount_price: None },
                                ),
                                Some(DocValue::Null) => Ok(
                                    WhitelistView { mode, mint, presale, discount_price: None },
                                ),
                                Some(DocValue::Number(dt)) => match spec_parse_price(dt@) {
                                    Some(p) => Ok(
                                        WhitelistView {
                                            mode,
                                            mint,
                                            presale,
                                            discount_price: Some(p),
                                        },
                                    ),
                                    None => Err(ErrView::TypeMismatch("discountPrice"@)),
                                },
                                Some(_) => Err(ErrView::TypeMismatch("discountPrice"@)),
                            },
                            Some(_) => Err(ErrView::TypeMismatch("presale"@)),
                        },
                    },
                    Some(_) => Err(ErrView::TypeMismatch("mint"@)),
                },
            },
            Some(_) => Err(ErrView::TypeMismatch("mode"@)),
        },
        _ => Err(ErrView::TypeMismatch("whitelistMintSettings"@)),
    }
}

pub open spec fn f_whitelist(es: Seq<(String, DocValue)>) -> Result<Option<WhitelistView>, ErrView> {
    match obj_get(es, "whitelistMintSettings"@) {
        None => Ok(None),
        Some(DocValue::Null) => Ok(None),
        Some(v) => match spec_parse_whitelist(v) {
            Ok(w) => Ok(Some(w)),
            Err(e) => Err(e),
        },
    }
}

/// The bytes of a document list, each entry a whole number below 256; the
/// length is not checked here.
pub open spec fn spec_hash_bytes(items: Seq<DocValue>) -> Option<Seq<u8>>
    decreases items.len(),
{
    if items.len() == 0 {
        Some(Seq::empty())
    } else {
        match spec_hash_bytes(items.drop_last()) {
            None => None,
            Some(pre) => match items.last() {
                DocValue::Number(t) => match spec_u64_digits(t@) {
                    Some(v) => if v <= 255 {
                        Some(pre.push(v as u8))
                    } else {
                        None
                    },
                    None => None,
                },
                _ => None,
            },
        }
    }
}

pub open spec fn spec_parse_hidden(v: DocValue) -> Result<HiddenView, ErrView> {
    match v {
        DocValue::Object(es) => match obj_get(es@, "name"@) {
            None => Err(ErrView::MissingRequiredField("name"@)),
            Some(DocValue::Text(name)) => match obj_get(es@, "uri"@) {
                None => Err(ErrView::MissingRequiredField("uri"@)),
                Some(DocValue::Text(uri)) => match obj_get(es@, "hash"@) {
                    None => Err(ErrView::MissingRequiredField("hash"@)),
                    Some(DocValue::List(items)) => match spec_hash_bytes(items@) {
                        None => Err(ErrView::TypeMismatch("hash"@)),
                        Some(bytes) => if bytes.len() == 32 {
                            Ok(HiddenView { name: name@, uri: uri@, hash: bytes })
                        } else {
                            Err(ErrView::InvalidFixedLength(bytes.len() as int))
                        },
                    },
                    Some(_) => Err(ErrView::TypeMismatch("hash"@)),
                },
                Some(_) => Err(ErrView::TypeMismatch("uri"@)),
            },
            Some(_) => Err(ErrView::TypeMismatch("name"@)),
        },
        _ => Err(ErrView::TypeMismatch("hiddenSettings"@)),
    }
}

pub open spec fn f_hidden(es: Seq<(String, DocValue)>) -> Result<Option<HiddenView>, ErrView> {
    match obj_get(es, "hiddenSettings"@) {
        None => Ok(None),
        Some(DocValue::Null) => Ok(None),
        Some(v) => match spec_parse_hidden(v) {
            Ok(h) => Ok(Some(h)),
            Err(e) => Err(e),
        },
    }
}

pub open spec fn f_upload(es: Seq<(String, DocValue)>) -> Result<UploadMethod, ErrView> {
    match obj_get(es, "uploadMethod"@) {
        None => Err(ErrView::MissingRequiredField("uploadMethod"@)),
        Some(DocValue::Text(t)) => match spec_upload_method(t@) {
            Some(u) => Ok(u),
            None => Err(ErrView::UnknownEnumValue(t@)),
        },
        Some(_) => Err(ErrView::TypeMismatch("uploadMethod"@)),
    }
}

pub open spec fn f_bool(es: Seq<(String, DocValue)>, key: Seq<char>) -> Result<bool, ErrView> {
    match obj_get(es, key) {
        None => Err(ErrView::MissingRequiredField(key)),
        Some(DocValue::Bool(b)) => Ok(b),
        Some(_) => Err(ErrView::TypeMismatch(key)),
    }
}

/// The whole construction, fail-fast in field order: the first failing field
/// decides the error, and success is exactly a fully validated view.
pub open spec fn spec_build_config(doc: DocValue) -> Result<ConfigView, ErrView> {
    match doc {
        DocValue::Object(es) => match f_price(es@) {
            Err(e) => Err(e),
            Ok(price) => match f_number(es@) {
                Err(e) => Err(e),
                Ok(number) => match f_gatekeeper(es@) {
                    Err(e) => Err(e),
                    Ok(gatekeeper) => match f_treasury(es@) {
                        Err(e) => Err(e),
                        Ok(sol_treasury_account) => match f_go_live(es@) {
                            Err(e) => Err(e),
                            Ok(go_live_date) => match f_end_settings(es@) {
                                Err(e) => Err(e),
                                Ok(end_settings) => match f_whitelist(es@) {
                                    Err(e) => Err(e),
                                    Ok(whitelist_mint_settings) => match f_hidden(es@) {
                                        Err(e) => Err(e),
                                        Ok(hidden_settings) => match f_upload(es@) {
                                            Err(e) => Err(e),
                                            Ok(upload_method) => match f_bool(
                                                es@,
                                                "retainAuthority"@,
                                            ) {
                                                Err(e) => Err(e),
                                                Ok(retain_authority) => match f_bool(
                                                    es@,
                                                    "isMutable"@,
                                                ) {
                                                    Err(e) => Err(e),
                                                    Ok(is_mutable) => Ok(
                                                        ConfigView {
                                                            price,
                                                            number,
                                                            gatekeeper,
                                                            sol_treasury_account,
                                                            spl_token_account: f_opt_address(
                                                                es@,
                                                                "splTokenAccount"@,
                                                            ),
                                                            spl_token: f_opt_address(
                                                                es@,
                                                                "splToken"@,
                                                            ),
                                                            go_live_date,
                                                            end_settings,
                                                            whitelist_mint_settings,
                                                            hidden_settings,
                                                            upload_method,
                                                            retain_authority,
                                                            is_mutable,
                                                        },
                                                    ),
                                                },
                                            },
                                        },
                                    },
                                },
                            },
                        },
                    },
                },
            },
        },
        _ => Err(ErrView::TypeMismatch("document"@)),
    }
}


proof fn lemma_dec_val_take_le(s: Seq<char>, j: int)
    requires
        0 <= j <= s.len(),
    ensures
        dec_val(s.take(j)) <= dec_val(s),
    decreases s.len() - j,
{
    if j == s.len() {
        assert(s.take(j) =~= s);
    } else {
        assert(s.take(j + 1).drop_last() =~= s.take(j));
        assert(dec_val(s.take(j)) * 10 >= dec_val(s.take(j))) by (nonlinear_arith);
        lemma_dec_val_take_le(s, j + 1);
    }
}

/// Reads a digit string as a whole unsigned count; rejects any other text
/// and any count too large to represent.
#[verifier::loop_isolation(false)]
fn parse_u64_digits(t: &str) -> (r: Option<u64>)
    ensures
        r == spec_u64_digits(t@),
{
    let n: usize = t.unicode_len();
    if n == 0 {
        return None;
    }
    let mut v: u64 = 0;
    let mut i: usize = 0;
    proof {
        assert(t@.take(0) =~= Seq::<char>::empty());
    }
    while i < n
        invariant
            i <= n,
            n == t@.len(),
            all_digits(t@.take(i as int)),
            v == dec_val(t@.take(i as int)),
        decreases n - i,
    {
        let c = t.get_char(i);
        if !crate::price::is_digit_char(c) {
            assert(!all_digits(t@));
            return None;
        }
        let d: u64 = crate::price::digit_of(c);
        proof {
            assert(t@.take(i + 1).drop_last() =~= t@.take(i as int));
            assert(t@.take(i + 1).last() == t@[i as int]);
            assert(forall|j: int| 0 <= j < i + 1 ==> t@.take(i + 1)[j] == t@[j]);
        }
        let stepped: Option<u64> = match v.checked_mul(10) {
            Some(m) => m.checked_add(d),
            None => None,
        };
        match stepped {
            Some(nv) => {
                v = nv;
            },
            None => {
                proof {
                    assert(dec_val(t@.take(i + 1)) > u64::MAX);
                    lemma_dec_val_take_le(t@, i + 1);
                }
                return None;
            },
        }
        i = i + 1;
    }
    proof {
        assert(t@.take(n as int) =~= t@);
    }
    Some(v)
}

fn missing(key: &str) -> (r: ConfigError)
    ensures
        err_view(r) == ErrView::MissingRequiredField(key@),
{
    ConfigError::MissingRequiredField(String::from_str(key))
}

fn mismatch(key: &str) -> (r: ConfigError)
    ensures
        err_view(r) == ErrView::TypeMismatch(key@),
{
    ConfigError::TypeMismatch(String::from_str(key))
}

fn parse_gatekeeper_doc(v: &DocValue) -> (r: Result<GatekeeperConfig, ConfigError>)
    ensures
        match r {
            Ok(g) => address_wf(g.gatekeeper_network) && spec_parse_gatekeeper(*v) == Ok::<GatekeeperView, ErrView>(
                GatekeeperView {
                    gatekeeper_network: g.gatekeeper_network.bytes@,
                    expire_on_use: g.expire_on_use,
                },
            ),
            Err(e) => spec_parse_gatekeeper(*v) == Err::<GatekeeperView, ErrView>(err_view(e)),
        },
{
    match v {
        DocValue::Object(es) => {
            let net = match find_key(es, "gatekeeper_network") {
                None => {
                    return Err(missing("gatekeeper_network"));
                },
                Some(i) => match &es[i].1 {
                    DocValue::Text(t) => match parse_address(t.as_str()) {
                        Ok(a) => a,
                        Err(_) => {
                            return Err(
                                ConfigError::InvalidAddress(String::from_str(t.as_str())),
                            );
                        },
                    },
                    _ => {
                        return Err(mismatch("gatekeeper_network"));
                    },
                },
            };
            match find_key(es, "expire_on_use") {
                None => Err(missing("expire_on_use")),
                Some(i) => match &es[i].1 {
                    DocValue::Bool(x) => Ok(
                        GatekeeperConfig { gatekeeper_network: net, expire_on_use: *x },
                    ),
                    _ => Err(mismatch("expire_on_use")),
                },
            }
        },
        _ => Err(mismatch("gatekeeper")),
    }
}

fn parse_end_settings_doc(v: &DocValue) -> (r: Result<EndSettings, ConfigError>)
    ensures
        match r {
            Ok(s) => spec_parse_end_settings(*v) == Ok::<EndSettings, ErrView>(s),
            Err(e) => spec_parse_end_settings(*v) == Err::<EndSettings, ErrView>(err_view(e)),
        },
{
    match v {
        DocValue::Object(es) => {
            let ty: EndSettingType = match find_key(es, "end_setting_type") {
                None => {
                    return Err(missing("end_setting_type"));
                },
                Some(i) => match &es[i].1 {
                    DocValue::Text(t) => {
                        if str_eq(t.as_str(), "Date") {
                            EndSettingType::Date
                        } else if str_eq(t.as_str(), "Amount") {
                            EndSettingType::Amount
                        } else {
                            return Err(
                                ConfigError::UnknownEnumValue(String::from_str(t.as_str())),
                            );
                        }
                    },
                    _ => {
                        return Err(mismatch("end_setting_type"));
                    },
                },
            };
            match find_key(es, "number") {
                None => Err(missing("number")),
                Some(i) => match &es[i].1 {
                    DocValue::Number(nt) => match parse_u64_digits(nt.as_str()) {
                        Some(n) => Ok(EndSettings { end_setting_type: ty, number: n }),
                        None => Err(mismatch("number")),
                    },
                    _ => Err(mismatch("number")),
                },
            }
        },
        _ => Err(mismatch("endSettings")),
    }
}

fn parse_whitelist_doc(v: &DocValue) -> (r: Result<WhitelistMintSettings, ConfigError>)
    ensures
        match r {
            Ok(w) => address_wf(w.mint) && whitelist_wf(w) && spec_parse_whitelist(*v) == Ok::<WhitelistView, ErrView>(
                WhitelistView {
                    mode: w.mode,
                    mint: w.mint.bytes@,
                    presale: w.presale,
                    discount_price: w.discount_price,
                },
            ),
            Err(e) => spec_parse_whitelist(*v) == Err::<WhitelistView, ErrView>(err_view(e)),
        },
{
    match v {
        DocValue::Object(es) => {
            let mode: WhitelistMintMode = match find_key(es, "mode") {
                None => {
                    return Err(missing("mode"));
                },
                Some(i) => match &es[i].1 {
                    DocValue::Text(mt) => match WhitelistMintMode::from_str(mt.as_str()) {
                        Ok(m) => m,
                        Err(e) => {
                            return Err(e);
                        },
                    },
                    _ => {
                        return Err(mismatch("mode"));
                    },
                },
            };
            let mint: Address = match find_key(es, "mint") {
                None => {
                    return Err(missing("mint"));
                },
                Some(i) => match &es[i].1 {
                    DocValue::Text(at) => match parse_address(at.as_str()) {
                        Ok(a) => a,
                        Err(_) => {
                            return Err(
                                ConfigError::InvalidAddress(String::from_str(at.as_str())),
                            );
                        },
                    },
                    _ => {
                        return Err(mismatch("mint"));
                    },
                },
            };
            let presale: bool = match find_key(es, "presale") {
                None => {
                    return Err(missing("presale"));
                },
                Some(i) => match &es[i].1 {
                    DocValue::Bool(p) => *p,
                    _ => {
                        return Err(mismatch("presale"));
                    },
                },
            };
            let discount_price: Option<Price> = match find_key(es, "discountPrice") {
                None => None,
                Some(i) => match &es[i].1 {
                    DocValue::Null => None,
                    DocValue::Number(dt) => match parse_price(dt.as_str()) {
                        Some(p) => Some(p),
                        None => {
                            return Err(mismatch("discountPrice"));
                        },
                    },
                    _ => {
                        return Err(mismatch("discountPrice"));
                    },
                },
            };
            Ok(WhitelistMintSettings { mode, mint, presale, discount_price })
        },
        _ => Err(mismatch("whitelistMintSettings")),
    }
}

#[verifier::loop_isolation(false)]
fn parse_hidden_doc(v: &DocValue) -> (r: Result<HiddenSettings, ConfigError>)
    ensures
        match r {
            Ok(h) => hidden_wf(h) && spec_parse_hidden(*v) == Ok::<HiddenView, ErrView>(
                HiddenView { name: h.name@, uri: h.uri@, hash: h.hash@ },
            ),
            Err(e) => spec_parse_hidden(*v) == Err::<HiddenView, ErrView>(err_view(e)),
        },
{
    match v {
        DocValue::Object(es) => {
            let name: String = match find_key(es, "name") {
                None => {
                    return Err(missing("name"));
                },
                Some(i) => match &es[i].1 {
                    DocValue::Text(t) => t.clone(),
                    _ => {
                        return Err(mismatch("name"));
                    },
                },
            };
            let uri: String = match find_key(es, "uri") {
                None => {
                    return Err(missing("uri"));
                },
                Some(i) => match &es[i].1 {
                    DocValue::Text(t) => t.clone(),
                    _ => {
                        return Err(mismatch("uri"));
                    },
                },
            };
            match find_key(es, "hash") {
                None => Err(missing("hash")),
                Some(i) => match &es[i].1 {
                    DocValue::List(items) => {
                        let m: usize = items.len();
                        let mut bytes: Vec<u8> = Vec::new();
                        let mut k: usize = 0;
                        proof {
                            assert(items@.take(0) =~= Seq::<DocValue>::empty());
                        }
                        while k < m
                            invariant
                                k <= m,
                                m == items@.len(),
                                bytes@.len() == k,
                                spec_hash_bytes(items@.take(k as int)) == Some(bytes@),
                            decreases m - k,
                        {
                            proof {
                                assert(items@.take(k + 1).drop_last() =~= items@.take(k as int));
                                assert(items@.take(k + 1).last() == items@[k as int]);
                            }
                            match &items[k] {
                                DocValue::Number(t) => match parse_u64_digits(t.as_str()) {
                                    Some(bv) => {
                                        if bv <= 255 {
                                            bytes.push(bv as u8);
                                        } else {
                                            proof {
                                                lemma_hash_prefix_none(items@, k as int + 1);
                                            }
                                            return Err(mismatch("hash"));
                                        }
                                    },
                                    None => {
                                        proof {
                                            lemma_hash_prefix_none(items@, k as int + 1);
                                        }
                                        return Err(mismatch("hash"));
                                    },
                                },
                                _ => {
                                    proof {
                                        lemma_hash_prefix_none(items@, k as int + 1);
                                    }
                                    return Err(mismatch("hash"));
                                },
                            }
                            k = k + 1;
                        }
                        proof {
                            assert(items@.take(m as int) =~= items@);
                        }
                        if bytes.len() != 32 {
                            let fl = bytes.len();
                            return Err(ConfigError::InvalidFixedLength(fl));
                        }
                        Ok(HiddenSettings { name, uri, hash: bytes })
                    },
                    _ => Err(mismatch("hash")),
                },
            }
        },
        _ => Err(mismatch("hiddenSettings")),
    }
}

/// Once a prefix of the list fails to read as bytes, the whole list does.
proof fn lemma_hash_prefix_none(items: Seq<DocValue>, j: int)
    requires
        0 <= j <= items.len(),
        spec_hash_bytes(items.take(j)) is None,
    ensures
        spec_hash_bytes(items) is None,
    decreases items.len() - j,
{
    if j == items.len() {
        assert(items.take(j) =~= items);
    } else {
        assert(items.take(j + 1).drop_last() =~= items.take(j));
        lemma_hash_prefix_none(items, j + 1);
    }
}


/// The top-level document type: every field validated at construction, held
/// in the user's original units, translated only on demand.
#[derive(Debug, Clone, PartialEq, Eq)]
pub struct ConfigData {
    pub price: Price,
    pub number: u64,
    pub gatekeeper: Option<GatekeeperConfig>,
    pub sol_treasury_account: Address,
    pub spl_token_account: Option<Address>,
    pub spl_token: Option<Address>,
    pub go_live_date: String,
    pub end_settings: Option<EndSettings>,
    pub whitelist_mint_settings: Option<WhitelistMintSettings>,
    pub hidden_settings: Option<HiddenSettings>,
    pub upload_method: UploadMethod,
    pub retain_authority: bool,
    pub is_mutable: bool,
}

pub open spec fn config_wf(c: ConfigData) -> bool {
    &&& price_wf(c.price)
    &&& address_wf(c.sol_treasury_account)
    &&& match c.gatekeeper {
        Some(g) => address_wf(g.gatekeeper_network),
        None => true,
    }
    &&& match c.spl_token_account {
        Some(a) => address_wf(a),
        None => true,
    }
    &&& match c.spl_token {
        Some(a) => address_wf(a),
        None => true,
    }
    &&& match c.whitelist_mint_settings {
        Some(w) => address_wf(w.mint) && whitelist_wf(w),
        None => true,
    }
    &&& match c.hidden_settings {
        Some(h) => hidden_wf(h),
        None => true,
    }
}

impl ConfigData {
    /// The abstract content of this configuration.
    pub open spec fn view(&self) -> ConfigView {
        ConfigView {
            price: self.price,
            number: self.number,
            gatekeeper: match self.gatekeeper {
                Some(g) => Some(
                    GatekeeperView {
                        gatekeeper_network: g.gatekeeper_network.bytes@,
                        expire_on_use: g.expire_on_use,
                    },
                ),
                None => None,
            },
            sol_treasury_account: self.sol_treasury_account.bytes@,
            spl_token_account: match self.spl_token_account {
                Some(a) => Some(a.bytes@),
                None => None,
            },
            spl_token: match self.spl_token {
                Some(a) => Some(a.bytes@),
                None => None,
            },
            go_live_date: self.go_live_date@,
            end_settings: self.end_settings,
            whitelist_mint_settings: match self.whitelist_mint_settings {
                Some(w) => Some(
                    WhitelistView {
                        mode: w.mode,
                        mint: w.mint.bytes@,
                        presale: w.presale,
                        discount_price: w.discount_price,
                    },
                ),
                None => None,
            },
            hidden_settings: match self.hidden_settings {
                Some(h) => Some(HiddenView { name: h.name@, uri: h.uri@, hash: h.hash@ }),
                None => None,
            },
            upload_method: self.upload_method,
            retain_authority: self.retain_authority,
            is_mutable: self.is_mutable,
        }
    }

    /// Builds a validated configuration from a document tree in one pass,
    /// fail-fast: the first failing field decides the error.
    #[verifier::rlimit(100)]
    pub fn from_document(doc: &DocValue) -> (r: Result<ConfigData, ConfigError>)
        ensures
            match r {
                Ok(c) => config_wf(c) && spec_build_config(*doc) == Ok::<ConfigView, ErrView>(
                    c.view(),
                ),
                Err(e) => spec_build_config(*doc) == Err::<ConfigView, ErrView>(err_view(e)),
            },
    {
        let es: &Vec<(String, DocValue)> = match doc {
            DocValue::Object(es) => es,
            _ => {
                return Err(mismatch("document"));
            },
        };
        let price: Price = match find_key(es, "price") {
            None => {
                return Err(missing("price"));
            },
            Some(i) => match &es[i].1 {
                DocValue::Number(t) => match parse_price(t.as_str()) {
                    Some(p) => p,
                    None => {
                        return Err(mismatch("price"));
                    },
                },
                _ => {
                    return Err(mismatch("price"));
                },
            },
        };
        let number: u64 = match find_key(es, "number") {
            None => {
                return Err(missing("number"));
            },
            Some(i) => match &es[i].1 {
                DocValue::Number(t) => match parse_u64_digits(t.as_str()) {
                    Some(v) => v,
                    None => {
                        return Err(mismatch("number"));
                    },
                },
                _ => {
                    return Err(mismatch("number"));
                },
            },
        };
        let gatekeeper: Option<GatekeeperConfig> = match find_key(es, "gatekeeper") {
            None => None,
            Some(i) => match &es[i].1 {
                DocValue::Null => None,
                v => match parse_gatekeeper_doc(v) {
                    Ok(g) => Some(g),
                    Err(e) => {
                        return Err(e);
                    },
                },
            },
        };
        let sol_treasury_account: Address = match find_key(es, "solTreasuryAccount") {
            None => {
                return Err(missing("solTreasuryAccount"));
            },
            Some(i) => match &es[i].1 {
                DocValue::Text(t) => match parse_address(t.as_str()) {
                    Ok(a) => a,
                    Err(_) => {
                        return Err(ConfigError::InvalidAddress(String::from_str(t.as_str())));
                    },
                },
                _ => {
                    return Err(mismatch("solTreasuryAccount"));
                },
            },
        };
        let go_live_date: String = match find_key(es, "goLiveDate") {
            None => {
                return Err(missing("goLiveDate"));
            },
            Some(i) => match &es[i].1 {
                DocValue::Text(t) => t.clone(),
                _ => {
                    return Err(mismatch("goLiveDate"));
                },
            },
        };
        let end_settings: Option<EndSettings> = match find_key(es, "endSettings") {
            None => None,
            Some(i) => match &es[i].1 {
                DocValue::Null => None,
                v => match parse_end_settings_doc(v) {
                    Ok(s) => Some(s),
                    Err(e) => {
                        return Err(e);
                    },
                },
            },
        };
        let whitelist_mint_settings: Option<WhitelistMintSettings> = match find_key(
            es,
            "whitelistMintSettings",
        ) {
            None => None,
            Some(i) => match &es[i].1 {
                DocValue::Null => None,
                v => match parse_whitelist_doc(v) {
                    Ok(w) => Some(w),
                    Err(e) => {
                        return Err(e);
                    },
                },
            },
        };
        let hidden_settings: Option<HiddenSettings> = match find_key(es, "hiddenSettings") {
            None => None,
            Some(i) => match &es[i].1 {
                DocValue::Null => None,
                v => match parse_hidden_doc(v) {
                    Ok(h) => Some(h),
                    Err(e) => {
                        return Err(e);
                    },
                },
            },
        };
        let upload_method: UploadMethod = match find_key(es, "uploadMethod") {
            None => {
                return Err(missing("uploadMethod"));
            },
            Some(i) => match &es[i].1 {
                DocValue::Text(t) => match UploadMethod::from_str(t.as_str()) {
                    Ok(u) => u,
                    Err(e) => {
                        return Err(e);
                    },
                },
                _ => {
                    return Err(mismatch("uploadMethod"));
                },
            },
        };
        let retain_authority: bool = match find_key(es, "retainAuthority") {
            None => {
                return Err(missing("retainAuthority"));
            },
            Some(i) => match &es[i].1 {
                DocValue::Bool(b) => *b,
                _ => {
                    return Err(mismatch("retainAuthority"));
                },
            },
        };
        let is_mutable: bool = match find_key(es, "isMutable") {
            None => {
                return Err(missing("isMutable"));
            },
            Some(i) => match &es[i].1 {
                DocValue::Bool(b) => *b,
                _ => {
                    return Err(mismatch("isMutable"));
                },
            },
        };
        let spl_token_account: Option<Address> = match find_key(es, "splTokenAccount") {
            None => None,
            Some(i) => match &es[i].1 {
                DocValue::Text(t) => parse_optional_address(t.as_str()),
                _ => None,
            },
        };
        let spl_token: Option<Address> = match find_key(es, "splToken") {
            None => None,
            Some(i) => match &es[i].1 {
                DocValue::Text(t) => parse_optional_address(t.as_str()),
                _ => None,
            },
        };
        Ok(
            ConfigData {
                price,
                number,
                gatekeeper,
                sol_treasury_account,
                spl_token_account,
                spl_token,
                go_live_date,
                end_settings,
                whitelist_mint_settings,
                hidden_settings,
                upload_method,
                retain_authority,
                is_mutable,
            },
        )
    }

    /// The campaign price in native subunits; always defined for a valid
    /// price.
    pub fn price_in_subunits(&self) -> (r: u64)
        requires
            config_wf(*self),
        ensures
            r == spec_subunits(self.price),
    {
        price_as_lamports(&self.price)
    }

    /// The go-live moment as epoch seconds, parsed on demand from the raw
    /// string kept at construction; may fail independently of construction.
    pub fn resolved_go_live_timestamp(&self) -> (r: Result<i64, ConfigError>)
        ensures
            match r {
                Ok(ts) => spec_parse_timestamp(self.go_live_date@) == Some(ts as int),
                Err(e) => spec_parse_timestamp(self.go_live_date@) is None && match e {
                    ConfigError::InvalidTimestamp(m) => m@ == self.go_live_date@,
                    _ => false,
                },
            },
    {
        crate::timestamp::go_live_date_as_timestamp(self.go_live_date.as_str())
    }
}


/// The external program's counterpart of the whole configuration: every
/// quantity already in protocol units.
#[derive(Debug, Clone, PartialEq, Eq)]
pub struct CandyConfigData {
    pub price: u64,
    pub number: u64,
    pub gatekeeper: Option<CandyGatekeeperConfig>,
    pub sol_treasury_account: Address,
    pub spl_token_account: Option<Address>,
    pub spl_token: Option<Address>,
    pub go_live_date: i64,
    pub end_settings: Option<CandyEndSettings>,
    pub whitelist_mint_settings: Option<CandyWhitelistMintSettings>,
    pub hidden_settings: Option<CandyHiddenSettings>,
    pub retain_authority: bool,
    pub is_mutable: bool,
}

/// Exactly when `r` is the translation of a configuration with content `c`:
/// each field of `r` is a function of `c` alone.
pub open spec fn candy_matches(c: ConfigView, r: CandyConfigData) -> bool {
    &&& r.price == spec_subunits(c.price)
    &&& r.number == c.number
    &&& match (c.gatekeeper, r.gatekeeper) {
        (Some(g), Some(cg)) => cg.gatekeeper_network.bytes@ == g.gatekeeper_network
            && cg.expire_on_use == g.expire_on_use,
        (None, None) => true,
        _ => false,
    }
    &&& r.sol_treasury_account.bytes@ == c.sol_treasury_account
    &&& match (c.spl_token_account, r.spl_token_account) {
        (Some(b), Some(a)) => a.bytes@ == b,
        (None, None) => true,
        _ => false,
    }
    &&& match (c.spl_token, r.spl_token) {
        (Some(b), Some(a)) => a.bytes@ == b,
        (None, None) => true,
        _ => false,
    }
    &&& Some(r.go_live_date as int) == spec_parse_timestamp(c.go_live_date)
    &&& match (c.end_settings, r.end_settings) {
        (Some(s), Some(cs)) => cs == s.spec_candy(),
        (None, None) => true,
        _ => false,
    }
    &&& match (c.whitelist_mint_settings, r.whitelist_mint_settings) {
        (Some(w), Some(cw)) => cw.mode == w.mode.spec_candy() && cw.mint.bytes@ == w.mint
            && cw.presale == w.presale && cw.discount_price == match w.discount_price {
            Some(p) => Some(spec_subunits(p)),
            None => None::<u64>,
        },
        (None, None) => true,
        _ => false,
    }
    &&& match (c.hidden_settings, r.hidden_settings) {
        (Some(h), Some(ch)) => ch.name@ == h.name && ch.uri@ == h.uri && ch.hash@ == h.hash,
        (None, None) => true,
        _ => false,
    }
    &&& r.retain_authority == c.retain_authority
    &&& r.is_mutable == c.is_mutable
}

impl ConfigData {
    /// Translates the whole configuration into the external shape,
    /// converting units at the point of translation; fails only when the
    /// retained go-live string is not a valid timestamp.
    #[verifier::rlimit(100)]
    pub fn into_candy_format(&self) -> (r: Result<CandyConfigData, ConfigError>)
        requires
            config_wf(*self),
        ensures
            match r {
                Ok(cd) => candy_matches(self.view(), cd),
                Err(e) => spec_parse_timestamp(self.go_live_date@) is None && match e {
                    ConfigError::InvalidTimestamp(m) => m@ == self.go_live_date@,
                    _ => false,
                },
            },
    {
        let go_live_date: i64 = match self.resolved_go_live_timestamp() {
            Ok(ts) => ts,
            Err(e) => {
                return Err(e);
            },
        };
        let gatekeeper: Option<CandyGatekeeperConfig> = match &self.gatekeeper {
            Some(g) => Some(g.into_candy_format()),
            None => None,
        };
        let spl_token_account: Option<Address> = match &self.spl_token_account {
            Some(a) => Some(clone_address(a)),
            None => None,
        };
        let spl_token: Option<Address> = match &self.spl_token {
            Some(a) => Some(clone_address(a)),
            None => None,
        };
        let end_settings: Option<CandyEndSettings> = match &self.end_settings {
            Some(s) => Some(s.into_candy_format()),
            None => None,
        };
        let whitelist_mint_settings: Option<CandyWhitelistMintSettings> = match &self
            .whitelist_mint_settings {
            Some(w) => Some(w.into_candy_format()),
            None => None,
        };
        let hidden_settings: Option<CandyHiddenSettings> = match &self.hidden_settings {
            Some(h) => Some(h.into_candy_format()),
            None => None,
        };
        Ok(
            CandyConfigData {
                price: price_as_lamports(&self.price),
                number: self.number,
                gatekeeper,
                sol_treasury_account: clone_address(&self.sol_treasury_account),
                spl_token_account,
                spl_token,
                go_live_date,
                end_settings,
                whitelist_mint_settings,
                hidden_settings,
                retain_authority: self.retain_authority,
                is_mutable: self.is_mutable,
            },
        )
    }
}

/// Translation is deterministic: any two translations of configurations
/// with the same content agree on every field, so repeated translation of
/// one configuration yields identical output.
pub proof fn lemma_translation_deterministic(c: ConfigView, r1: CandyConfigData, r2: CandyConfigData)
    requires
        candy_matches(c, r1),
        candy_matches(c, r2),
    ensures
        r1.price == r2.price,
        r1.number == r2.number,
        r1.go_live_date == r2.go_live_date,
        r1.sol_treasury_account.bytes@ == r2.sol_treasury_account.bytes@,
        r1.gatekeeper is Some == r2.gatekeeper is Some,
        r1.end_settings == r2.end_settings,
        r1.retain_authority == r2.retain_authority,
        r1.is_mutable == r2.is_mutable,
        match (r1.whitelist_mint_settings, r2.whitelist_mint_settings) {
            (Some(w1), Some(w2)) => w1.mode == w2.mode && w1.mint.bytes@ == w2.mint.bytes@
                && w1.presale == w2.presale && w1.discount_price == w2.discount_price,
            (None, None) => true,
            _ => false,
        },
        match (r1.hidden_settings, r2.hidden_settings) {
            (Some(h1), Some(h2)) => h1.name@ == h2.name@ && h1.uri@ == h2.uri@ && h1.hash@
                == h2.hash@,
            (None, None) => true,
            _ => false,
        },
{
}

} // verus!
