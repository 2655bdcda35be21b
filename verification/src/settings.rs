use vstd::prelude::*;

use crate::address::{Address, address_wf};
use crate::error::ConfigError;
use crate::price::{Price, price_wf, spec_subunits, discount_price_to_lamports};

verus! {

/// Lower-cases one basic-alphabet letter; other characters pass unchanged.
pub open spec fn lower_char(c: char) -> char {
    if 65 <= c as u32 <= 90 {
        ((c as u32 + 32) as u8) as char
    } else {
        c
    }
}

/// Token equality up to letter case.
pub open spec fn eq_ci(s: Seq<char>, t: Seq<char>) -> bool {
    s.len() == t.len() && forall|i: int| 0 <= i < s.len() ==> lower_char(#[trigger] s[i]) == t[i]
}

/// Compares a candidate token against a lower-case token, ignoring the
/// candidate's letter case.
pub fn matches_ci(s: &str, t: &str) -> (r: bool)
    ensures
        r == eq_ci(s@, t@),
{
    let n: usize = s.unicode_len();
    let m: usize = t.unicode_len();
    if n != m {
        return false;
    }
    let mut i: usize = 0;
    while i < n
        invariant
            i <= n,
            n == s@.len(),
            n == t@.len(),
            forall|j: int| 0 <= j < i ==> lower_char(s@[j]) == t@[j],
        decreases n - i,
    {
        let c = s.get_char(i);
        let u: u32 = c as u32;
        let low: char = if 65 <= u && u <= 90 {
            ((u + 32) as u8) as char
        } else {
            c
        };
        assert(low == lower_char(s@[i as int]));
        if low != t.get_char(i) {
            return false;
        }
        i = i + 1;
    }
    true
}

/// Where uploaded assets are stored; a closed enumeration parsed
/// case-insensitively.
#[derive(Debug, Clone, Copy, PartialEq, Eq, Structural)]
pub enum UploadMethod {
    Metaplex,
    Bundlr,
    Arloader,
}

pub open spec fn spec_upload_method(s: Seq<char>) -> Option<UploadMethod> {
    if eq_ci(s, "metaplex"@) {
        Some(UploadMethod::Metaplex)
    } else if eq_ci(s, "bundlr"@) {
        Some(UploadMethod::Bundlr)
    } else if eq_ci(s, "arloader"@) {
        Some(UploadMethod::Arloader)
    } else {
        None
    }
}

impl UploadMethod {
    /// Parses the storage token, ignoring letter case; an unmatched token is
    /// an error carrying the offending string.
    pub fn from_str(s: &str) -> (r: Result<UploadMethod, ConfigError>)
        ensures
            match r {
                Ok(u) => spec_upload_method(s@) == Some(u),
                Err(e) => spec_upload_method(s@) is None && match e {
                    ConfigError::UnknownEnumValue(m) => m@ == s@,
                    _ => false,
                },
            },
    {
        if matches_ci(s, "metaplex") {
            Ok(UploadMethod::Metaplex)
        } else if matches_ci(s, "bundlr") {
            Ok(UploadMethod::Bundlr)
        } else if matches_ci(s, "arloader") {
            Ok(UploadMethod::Arloader)
        } else {
            Err(ConfigError::UnknownEnumValue(String::from_str(s)))
        }
    }
}

/// How a whitelist token is treated at mint time.
#[derive(Debug, Clone, Copy, PartialEq, Eq, Structural)]
pub enum WhitelistMintMode {
    BurnEveryTime,
    NeverBurn,
}

pub open spec fn spec_whitelist_mode(s: Seq<char>) -> Option<WhitelistMintMode> {
    if eq_ci(s, "burneverytime"@) {
        Some(WhitelistMintMode::BurnEveryTime)
    } else if eq_ci(s, "neverburn"@) {
        Some(WhitelistMintMode::NeverBurn)
    } else {
        None
    }
}

/// The external program's counterpart of `WhitelistMintMode`.
#[derive(Debug, Clone, Copy, PartialEq, Eq, Structural)]
pub enum CandyWhitelistMintMode {
    BurnEveryTime,
    NeverBurn,
}

impl WhitelistMintMode {
    /// Parses the mode token, ignoring letter case; an unmatched token is an
    /// error carrying the offending string.
    pub fn from_str(s: &str) -> (r: Result<WhitelistMintMode, ConfigError>)
        ensures
            match r {
                Ok(m) => spec_whitelist_mode(s@) == Some(m),
                Err(e) => spec_whitelist_mode(s@) is None && match e {
                    ConfigError::UnknownEnumValue(m) => m@ == s@,
                    _ => false,
                },
            },
    {
        if matches_ci(s, "burneverytime") {
            Ok(WhitelistMintMode::BurnEveryTime)
        } else if matches_ci(s, "neverburn") {
            Ok(WhitelistMintMode::NeverBurn)
        } else {
            Err(ConfigError::UnknownEnumValue(String::from_str(s)))
        }
    }

    pub open spec fn spec_candy(self) -> CandyWhitelistMintMode {
        match self {
            WhitelistMintMode::BurnEveryTime => CandyWhitelistMintMode::BurnEveryTime,
            WhitelistMintMode::NeverBurn => CandyWhitelistMintMode::NeverBurn,
        }
    }

    /// Maps each mode to its external counterpart.
    pub fn into_candy_format(&self) -> (r: CandyWhitelistMintMode)
        ensures
            r == self.spec_candy(),
    {
        match self {
            WhitelistMintMode::BurnEveryTime => CandyWhitelistMintMode::BurnEveryTime,
            WhitelistMintMode::NeverBurn => CandyWhitelistMintMode::NeverBurn,
        }
    }
}

/// When the minting campaign closes.
#[derive(Debug, Clone, Copy, PartialEq, Eq, Structural)]
pub enum EndSettingType {
    Date,
    Amount,
}

/// The external program's counterpart of `EndSettingType`.
#[derive(Debug, Clone, Copy, PartialEq, Eq, Structural)]
pub enum CandyEndSettingType {
    Date,
    Amount,
}

/// The campaign end condition: a tag saying how `number` is read downstream
/// (as a timestamp or a unit count), preserved without interpretation.
#[derive(Debug, Clone, Copy, PartialEq, Eq, Structural)]
pub struct EndSettings {
    pub end_setting_type: EndSettingType,
    pub number: u64,
}

/// The external program's counterpart of `EndSettings`.
#[derive(Debug, Clone, Copy, PartialEq, Eq, Structural)]
pub struct CandyEndSettings {
    pub end_setting_type: CandyEndSettingType,
    pub number: u64,
}

impl EndSettings {
    pub open spec fn spec_candy(self) -> CandyEndSettings {
        CandyEndSettings {
            end_setting_type: match self.end_setting_type {
                EndSettingType::Date => CandyEndSettingType::Date,
                EndSettingType::Amount => CandyEndSettingType::Amount,
            },
            number: self.number,
        }
    }

    /// Maps the tag to its external counterpart and keeps the threshold.
    pub fn into_candy_format(&self) -> (r: CandyEndSettings)
        ensures
            r == self.spec_candy(),
    {
        CandyEndSettings {
            end_setting_type: match self.end_setting_type {
                EndSettingType::Date => CandyEndSettingType::Date,
                EndSettingType::Amount => CandyEndSettingType::Amount,
            },
            number: self.number,
        }
    }
}

/// The gateway policy: which network gates minting, and whether its token
/// expires after use.
#[derive(Debug, Clone, PartialEq, Eq)]
pub struct GatekeeperConfig {
    pub gatekeeper_network: Address,
    pub expire_on_use: bool,
}

/// The external program's counterpart of `GatekeeperConfig`.
#[derive(Debug, Clone, PartialEq, Eq)]
pub struct CandyGatekeeperConfig {
    pub gatekeeper_network: Address,
    pub expire_on_use: bool,
}

impl GatekeeperConfig {
    /// Copies the policy into the external shape, field for field.
    pub fn into_candy_format(&self) -> (r: CandyGatekeeperConfig)
        ensures
            r.gatekeeper_network.bytes@ == self.gatekeeper_network.bytes@,
            r.expire_on_use == self.expire_on_use,
    {
        CandyGatekeeperConfig {
            gatekeeper_network: clone_address(&self.gatekeeper_network),
            expire_on_use: self.expire_on_use,
        }
    }
}

pub fn clone_address(a: &Address) -> (r: Address)
    ensures
        r.bytes@ == a.bytes@,
{
    let mut bytes: Vec<u8> = Vec::new();
    let n: usize = a.bytes.len();
    let mut i: usize = 0;
    while i < n
        invariant
            i <= n,
            n == a.bytes@.len(),
            bytes@.len() == i,
            forall|j: int| 0 <= j < i ==> bytes@[j] == a.bytes@[j],
        decreases n - i,
    {
        bytes.push(a.bytes[i]);
        i = i + 1;
    }
    proof {
        assert(bytes@ =~= a.bytes@);
    }
    Address { bytes }
}

/// The whitelist policy: mode, whitelist token mint, presale switch, and an
/// optional discounted price.
#[derive(Debug, Clone, PartialEq, Eq)]
pub struct WhitelistMintSettings {
    pub mode: WhitelistMintMode,
    pub mint: Address,
    pub presale: bool,
    pub discount_price: Option<Price>,
}

/// The external program's counterpart of `WhitelistMintSettings`: the
/// discount already translated to subunits.
#[derive(Debug, Clone, PartialEq, Eq)]
pub struct CandyWhitelistMintSettings {
    pub mode: CandyWhitelistMintMode,
    pub mint: Address,
    pub presale: bool,
    pub discount_price: Option<u64>,
}

pub open spec fn whitelist_wf(w: WhitelistMintSettings) -> bool {
    match w.discount_price {
        Some(p) => price_wf(p),
        None => true,
    }
}

impl WhitelistMintSettings {
    /// Translates the policy: the mode maps variant to variant and the
    /// discount converts to subunits by the same rule as a required price.
    pub fn into_candy_format(&self) -> (r: CandyWhitelistMintSettings)
        requires
            whitelist_wf(*self),
        ensures
            r.mode == self.mode.spec_candy(),
            r.mint.bytes@ == self.mint.bytes@,
            r.presale == self.presale,
            r.discount_price == match self.discount_price {
                Some(p) => Some(spec_subunits(p)),
                None => None::<u64>,
            },
    {
        CandyWhitelistMintSettings {
            mode: self.mode.into_candy_format(),
            mint: clone_address(&self.mint),
            presale: self.presale,
            discount_price: discount_price_to_lamports(&self.discount_price),
        }
    }
}

/// Hidden-reveal metadata: a placeholder name and URI, and a 32-byte
/// commitment; only the length of the commitment is checked here.
#[derive(Debug, Clone, PartialEq, Eq)]
pub struct HiddenSettings {
    pub name: String,
    pub uri: String,
    pub hash: Vec<u8>,
}

/// The external program's counterpart of `HiddenSettings`.
#[derive(Debug, Clone, PartialEq, Eq)]
pub struct CandyHiddenSettings {
    pub name: String,
    pub uri: String,
    pub hash: Vec<u8>,
}

pub open spec fn hidden_wf(h: HiddenSettings) -> bool {
    h.hash@.len() == 32
}

impl HiddenSettings {
    /// Accepts the metadata only when the commitment is exactly 32 bytes;
    /// the error carries the length found.
    pub fn new(name: String, uri: String, hash: Vec<u8>) -> (r: Result<HiddenSettings, ConfigError>)
        ensures
            match r {
                Ok(h) => hash@.len() == 32 && h.name@ == name@ && h.uri@ == uri@ && h.hash@
                    == hash@,
                Err(e) => hash@.len() != 32 && e == ConfigError::InvalidFixedLength(hash@.len() as usize),
            },
    {
        if hash.len() != 32 {
            let n = hash.len();
            return Err(ConfigError::InvalidFixedLength(n));
        }
        Ok(HiddenSettings { name, uri, hash })
    }

    /// Copies the metadata into the external shape, field for field.
    pub fn into_candy_format(&self) -> (r: CandyHiddenSettings)
        ensures
            r.name@ == self.name@,
            r.uri@ == self.uri@,
            r.hash@ == self.hash@,
    {
        let mut hash: Vec<u8> = Vec::new();
        let n: usize = self.hash.len();
        let mut i: usize = 0;
        while i < n
            invariant
                i <= n,
                n == self.hash@.len(),
                hash@.len() == i,
                forall|j: int| 0 <= j < i ==> hash@[j] == self.hash@[j],
            decreases n - i,
        {
            hash.push(self.hash[i]);
            i = i + 1;
        }
        proof {
            assert(hash@ =~= self.hash@);
        }
        CandyHiddenSettings { name: self.name.clone(), uri: self.uri.clone(), hash }
    }
}

} // verus!
