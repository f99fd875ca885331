use vstd::prelude::*;

use crate::numfmt::dec_u64;
use crate::numfmt::hex16_u64;
use crate::numfmt::spec_dec;
use crate::numfmt::spec_hex16;
use crate::platform::rfc3339_after_days;
use crate::platform::unix_now_seconds;
use crate::util::contains_string;
use crate::util::string_eq;
use crate::util::strs_view;
use std::collections::hash_map::DefaultHasher;
use std::hash::Hasher;
use vstd::std_specs::hash::DefaultHasherAdditionalSpecFns;
use vstd::string::StringExecFns;

verus! {

/// Tier of a license.
#[derive(Debug, Clone, Copy, PartialEq, Eq, Structural)]
pub enum LicenseType {
    Trial,
    Standard,
    Professional,
    Enterprise,
}

/// A license: key, tier, holder, capacity, optional expiry (Unix seconds;
/// `None` means perpetual), feature names, and a signature over the other
/// fields.
#[derive(Debug, PartialEq, Eq)]
pub struct License {
    pub license_key: String,
    pub license_type: LicenseType,
    pub organization: String,
    pub max_runners: u32,
    pub expires_at: Option<u64>,
    pub features: Vec<String>,
    pub signature: String,
}

/// The mathematical abstraction of a `License`.
#[verifier::ext_equal]
pub ghost struct LicenseModel {
    pub license_key: Seq<char>,
    pub license_type: LicenseType,
    pub organization: Seq<char>,
    pub max_runners: u32,
    pub expires_at: Option<u64>,
    pub features: Seq<Seq<char>>,
    pub signature: Seq<char>,
}

impl View for License {
    type V = LicenseModel;

    open spec fn view(&self) -> LicenseModel {
        LicenseModel {
            license_key: self.license_key@,
            license_type: self.license_type,
            organization: self.organization@,
            max_runners: self.max_runners,
            expires_at: self.expires_at,
            features: strs_view(self.features@),
            signature: self.signature@,
        }
    }
}

/// The feature names joined with commas.
pub open spec fn spec_join_commas(fs: Seq<Seq<char>>) -> Seq<char>
    decreases fs.len(),
{
    if fs.len() == 0 {
        Seq::empty()
    } else if fs.len() == 1 {
        fs[0]
    } else {
        spec_join_commas(fs.drop_last()) + ","@ + fs.last()
    }
}

/// The canonical payload a license's signature is computed over: the key,
/// holder, capacity, expiry (0 when perpetual) and comma-joined feature
/// names, separated by colons.
pub open spec fn spec_payload(l: LicenseModel) -> Seq<char> {
    l.license_key + ":"@ + l.organization + ":"@ + spec_dec(l.max_runners as nat) + ":"@
        + spec_dec(
        (match l.expires_at {
            Some(e) => e,
            None => 0,
        }) as nat,
    ) + ":"@ + spec_join_commas(l.features)
}

/// The sixteen key-mixing bytes appended to the payload before hashing.
pub open spec fn spec_secret() -> Seq<u8> {
    seq![
        0x5Bu8,
        0x4Bu8,
        0x55u8,
        0x4Cu8,
        0x44u8,
        0x42u8,
        0x4Fu8,
        0x54u8,
        0x52u8,
        0x55u8,
        0x4Eu8,
        0x45u8,
        0x52u8,
        0x4Bu8,
        0x45u8,
        0x4Du8,
    ]
}

/// The 64-bit digest of the payload mixed with the secret: what the
/// default hasher yields after writing the payload's UTF-8 bytes and then
/// the secret bytes.
pub open spec fn spec_digest(data: Seq<char>) -> u64 {
    DefaultHasher::spec_finish(seq![vstd::utf8::encode_utf8(data), spec_secret()])
}

/// A signature string: the digest as sixteen lowercase hex digits.
pub open spec fn spec_signature(data: Seq<char>) -> Seq<char> {
    spec_hex16(spec_digest(data))
}

/// Whether the license is valid at time `now` (Unix seconds): unexpired
/// and carrying the signature of its own payload.
pub open spec fn spec_valid_at(l: LicenseModel, now: u64) -> bool {
    &&& (match l.expires_at {
        Some(e) => now <= e,
        None => true,
    })
    &&& l.signature == spec_signature(spec_payload(l))
}

impl License {
    /// The canonical payload the signature is computed over.
    pub fn payload(&self) -> (r: String)
        ensures
            r@ == spec_payload(self@),
    {
        let ghost fsv = strs_view(self.features@);
        let ghost prefix = self@.license_key + ":"@ + self@.organization + ":"@ + spec_dec(
            self@.max_runners as nat,
        ) + ":"@ + spec_dec(
            (match self@.expires_at {
                Some(e) => e,
                None => 0,
            }) as nat,
        ) + ":"@;
        let mut s = self.license_key.clone();
        s.append(":");
        s.append(self.organization.as_str());
        s.append(":");
        let runners = dec_u64(self.max_runners as u64);
        s.append(runners.as_str());
        s.append(":");
        let expiry = dec_u64(
            match self.expires_at {
                Some(e) => e,
                None => 0,
            },
        );
        s.append(expiry.as_str());
        s.append(":");
        proof {
            assert(s@ == prefix);
            assert(prefix + spec_join_commas(fsv.take(0)) =~= prefix);
        }
        let n = self.features.len();
        let mut i: usize = 0;
        while i < n
            invariant
                i <= n,
                n == self.features@.len(),
                fsv == strs_view(self.features@),
                fsv.len() == n,
                forall|j: int| 0 <= j < n ==> fsv[j] == self.features@[j]@,
                s@ == prefix + spec_join_commas(fsv.take(i as int)),
            decreases n - i,
        {
            if i > 0 {
                s.append(",");
            }
            s.append(self.features[i].as_str());
            proof {
                let t = fsv.take(i + 1);
                assert(t.len() == i + 1);
                assert(t.last() == fsv[i as int]);
                if i == 0 {
                    assert(t[0] == fsv[0]);
                    assert(spec_join_commas(t) == fsv[0]);
                    assert(s@ =~= prefix + spec_join_commas(t));
                } else {
                    assert(t.drop_last() =~= fsv.take(i as int));
                    assert(spec_join_commas(t) == spec_join_commas(fsv.take(i as int)) + ","@
                        + fsv[i as int]);
                    assert(s@ =~= prefix + spec_join_commas(t));
                }
            }
            i = i + 1;
        }
        proof {
            assert(fsv.take(n as int) =~= fsv);
            assert(spec_payload(self@) == prefix + spec_join_commas(fsv));
        }
        s
    }

    /// Compute the signature string for a payload.
    pub fn compute_signature(&self, data: &str) -> (r: String)
        ensures
            r@ == spec_signature(data@),
    {
        let mut secret: Vec<u8> = Vec::new();
        secret.push(0x5B);
        secret.push(0x4B);
        secret.push(0x55);
        secret.push(0x4C);
        secret.push(0x44);
        secret.push(0x42);
        secret.push(0x4F);
        secret.push(0x54);
        secret.push(0x52);
        secret.push(0x55);
        secret.push(0x4E);
        secret.push(0x45);
        secret.push(0x52);
        secret.push(0x4B);
        secret.push(0x45);
        secret.push(0x4D);
        proof {
            assert(secret@ =~= spec_secret());
        }
        let mut hasher = DefaultHasher::new();
        hasher.write(data.as_bytes());
        hasher.write(secret.as_slice());
        proof {
            assert(hasher@ =~= seq![vstd::utf8::encode_utf8(data@), spec_secret()]);
        }
        let h = hasher.finish();
        hex16_u64(h)
    }

    /// Whether the signature field matches the signature of the payload.
    pub fn verify_signature(&self) -> (r: bool)
        ensures
            r == (self@.signature == spec_signature(spec_payload(self@))),
    {
        let data = self.payload();
        let expected = self.compute_signature(data.as_str());
        string_eq(&self.signature, expected.as_str())
    }

    /// Whether the license is valid at time `now` (Unix seconds):
    /// unexpired and correctly signed.
    pub fn is_valid_at(&self, now: u64) -> (r: bool)
        ensures
            r == spec_valid_at(self@, now),
    {
        let unexpired = match self.expires_at {
            Some(expires) => now <= expires,
            None => true,
        };
        if !unexpired {
            return false;
        }
        self.verify_signature()
    }

    /// Whether the license is valid now, by the system clock.  The clock's
    /// reading cannot be pinned down; `is_valid_at` carries the exact
    /// contract.
    pub fn is_valid(&self) -> (r: bool)
        ensures
            exists|now: u64| r == spec_valid_at(self@, now),
            self@.expires_at is None ==> r == (self@.signature == spec_signature(
                spec_payload(self@),
            )),
    {
        let now_signed = unix_now_seconds();
        let now: u64 = if now_signed >= 0 {
            now_signed as u64
        } else {
            0
        };
        let r = self.is_valid_at(now);
        proof {
            assert(r == spec_valid_at(self@, now));
        }
        r
    }

    /// Whether a feature is enabled on this license.
    pub fn has_feature(&self, feature: &str) -> (r: bool)
        ensures
            r == self@.features.contains(feature@),
    {
        contains_string(&self.features, feature)
    }
}

/// Whether two characters are equal up to ASCII letter case.
pub open spec fn spec_char_eq_nocase(a: char, b: char) -> bool {
    ||| a == b
    ||| (97 <= a as int <= 122 && b as int + 32 == a as int)
    ||| (97 <= b as int <= 122 && a as int + 32 == b as int)
}

/// Whether `s` begins with `p`, comparing ASCII letters case-insensitively.
pub open spec fn spec_prefix_nocase(s: Seq<char>, p: Seq<char>) -> bool {
    &&& s.len() >= p.len()
    &&& forall|i: int| 0 <= i < p.len() ==> spec_char_eq_nocase(s[i], #[trigger] p[i])
}

/// Whether two characters are equal up to ASCII letter case.
fn char_eq_nocase(a: char, b: char) -> (r: bool)
    ensures
        r == spec_char_eq_nocase(a, b),
{
    if a == b {
        true
    } else {
        let ai = a as u32;
        let bi = b as u32;
        (ai >= 97 && ai <= 122 && bi + 32 == ai) || (bi >= 97 && bi <= 122 && ai + 32 == bi)
    }
}

/// Whether `s` begins with `p`, comparing ASCII letters case-insensitively.
fn prefix_nocase(s: &str, p: &str) -> (r: bool)
    ensures
        r == spec_prefix_nocase(s@, p@),
{
    let n = s.unicode_len();
    let m = p.unicode_len();
    if n < m {
        return false;
    }
    let mut i: usize = 0;
    while i < m
        invariant
            i <= m,
            m == p@.len(),
            n == s@.len(),
            n >= m,
            forall|j: int| 0 <= j < i ==> spec_char_eq_nocase(s@[j], #[trigger] p@[j]),
        decreases m - i,
    {
        if !char_eq_nocase(s.get_char(i), p.get_char(i)) {
            return false;
        }
        i = i + 1;
    }
    true
}

/// Whether a license key is of a recognized product line.
pub open spec fn spec_key_valid(key: Seq<char>) -> bool {
    ||| spec_prefix_nocase(key, "STUDIO-"@)
    ||| spec_prefix_nocase(key, "SKULDAI-"@)
    ||| spec_prefix_nocase(key, "COMPLY-"@)
    ||| spec_prefix_nocase(key, "DATAQ-"@)
    ||| spec_prefix_nocase(key, "DEMO-"@)
}

/// The module a license key activates (empty for an unrecognized key).
/// Prefixes are tried in a fixed order.
pub open spec fn spec_key_module(key: Seq<char>) -> Seq<char> {
    if spec_prefix_nocase(key, "STUDIO-"@) {
        "studio"@
    } else if spec_prefix_nocase(key, "SKULDAI-"@) {
        "skuldai"@
    } else if spec_prefix_nocase(key, "COMPLY-"@) {
        "skuldcompliance"@
    } else if spec_prefix_nocase(key, "DATAQ-"@) {
        "skulddataquality"@
    } else if spec_prefix_nocase(key, "DEMO-"@) {
        "studio"@
    } else {
        Seq::empty()
    }
}

/// The features a license key activates (none for an unrecognized key).
pub open spec fn spec_key_features(key: Seq<char>) -> Seq<Seq<char>> {
    if spec_prefix_nocase(key, "STUDIO-"@) {
        seq!["flowEditor"@, "localExecution"@, "projectManagement"@, "170+BaseNodes"@]
    } else if spec_prefix_nocase(key, "SKULDAI-"@) {
        seq!["aiPlanner"@, "aiRefinement"@, "localLLM"@, "ai.llm_prompt"@, "ai.extract_data"@]
    } else if spec_prefix_nocase(key, "COMPLY-"@) {
        seq![
            "compliance.protect_pii"@,
            "compliance.protect_phi"@,
            "compliance.audit_log"@,
        ]
    } else if spec_prefix_nocase(key, "DATAQ-"@) {
        seq!["dataquality.validate"@, "dataquality.profile_data"@, "ai.repair_data"@]
    } else if spec_prefix_nocase(key, "DEMO-"@) {
        seq!["flowEditor"@, "localExecution"@, "projectManagement"@]
    } else {
        Seq::empty()
    }
}

/// The outcome of application-level license validation.
#[derive(Debug, PartialEq, Eq)]
pub struct LicenseValidationResult {
    pub valid: bool,
    pub module: String,
    pub expires_at: String,
    pub features: Vec<String>,
    pub error: Option<String>,
}

/// Push each of a slice of string literals onto a vector.
fn push_features(out: &mut Vec<String>, names: &[&str])
    ensures
        strs_view(final(out)@) == strs_view(old(out)@) + Seq::new(
            names@.len(),
            |i: int| names@[i]@,
        ),
{
    let n = names.len();
    let mut i: usize = 0;
    while i < n
        invariant
            i <= n,
            n == names@.len(),
            out@.len() == old(out)@.len() + i,
            forall|j: int| 0 <= j < old(out)@.len() ==> out@[j] == old(out)@[j],
            forall|j: int| 0 <= j < i ==> out@[old(out)@.len() + j]@ == names@[j]@,
        decreases n - i,
    {
        out.push(String::from_str(names[i]));
        i = i + 1;
    }
    proof {
        assert(strs_view(out@) =~= strs_view(old(out)@) + Seq::new(
            names@.len(),
            |i: int| names@[i]@,
        ));
    }
}

/// Validate a license key by its product-line prefix: recognized keys are
/// accepted with their module and feature set and the supplied expiry
/// timestamp; anything else is rejected with an error message.
///
/// Everything but the expiry string is a pure function of the key;
/// `validate_license` supplies the expiry from the clock.
pub fn validate_license_at(license_key: &str, expires_at: String) -> (r: LicenseValidationResult)
    ensures
        r.valid == spec_key_valid(license_key@),
        r.module@ == spec_key_module(license_key@),
        strs_view(r.features@) == spec_key_features(license_key@),
        spec_key_valid(license_key@) ==> r.expires_at@ == expires_at@ && r.error is None,
        !spec_key_valid(license_key@) ==> r.expires_at@ == Seq::<char>::empty() && (
        r.error matches Some(e) && e@ == "Invalid license key format"@),
{
    let mut features: Vec<String> = Vec::new();
    let (valid, module): (bool, &'static str) = if prefix_nocase(license_key, "STUDIO-") {
        push_features(
            &mut features,
            &["flowEditor", "localExecution", "projectManagement", "170+BaseNodes"],
        );
        (true, "studio")
    } else if prefix_nocase(license_key, "SKULDAI-") {
        push_features(
            &mut features,
            &["aiPlanner", "aiRefinement", "localLLM", "ai.llm_prompt", "ai.extract_data"],
        );
        (true, "skuldai")
    } else if prefix_nocase(license_key, "COMPLY-") {
        push_features(
            &mut features,
            &["compliance.protect_pii", "compliance.protect_phi", "compliance.audit_log"],
        );
        (true, "skuldcompliance")
    } else if prefix_nocase(license_key, "DATAQ-") {
        push_features(
            &mut features,
            &["dataquality.validate", "dataquality.profile_data", "ai.repair_data"],
        );
        (true, "skulddataquality")
    } else if prefix_nocase(license_key, "DEMO-") {
        push_features(&mut features, &["flowEditor", "localExecution", "projectManagement"]);
        (true, "studio")
    } else {
        (false, "")
    };
    proof {
        assert(strs_view(features@) =~= spec_key_features(license_key@));
    }
    if valid {
        LicenseValidationResult {
            valid: true,
            module: String::from_str(module),
            expires_at,
            features,
            error: None,
        }
    } else {
        LicenseValidationResult {
            valid: false,
            module: String::new(),
            expires_at: String::new(),
            features,
            error: Some(String::from_str("Invalid license key format")),
        }
    }
}

/// Validate a license key by its product-line prefix, granting accepted
/// keys a year of validity from now.  The clock's reading cannot be
/// pinned down; `validate_license_at` carries the exact contract for the
/// expiry field.
pub fn validate_license(license_key: &str) -> (r: LicenseValidationResult)
    ensures
        r.valid == spec_key_valid(license_key@),
        r.module@ == spec_key_module(license_key@),
        strs_view(r.features@) == spec_key_features(license_key@),
        spec_key_valid(license_key@) ==> r.error is None,
        !spec_key_valid(license_key@) ==> r.expires_at@ == Seq::<char>::empty() && (
        r.error matches Some(e) && e@ == "Invalid license key format"@),
{
    let expires_at = rfc3339_after_days(365);
    validate_license_at(license_key, expires_at)
}

/// The binary-level trial license: thirty days of the basic feature set,
/// with the signature left for the license server to fill in.  `now` is
/// the current Unix time, read by the caller.
pub fn protection_validate_binary_license(license_key: String, now: u64) -> (r: Result<
    License,
    String,
>)
    requires
        now + 30 * 24 * 60 * 60 <= u64::MAX,
    ensures
        r matches Ok(l) && l@ == (LicenseModel {
            license_key: license_key@,
            license_type: LicenseType::Trial,
            organization: "Trial User"@,
            max_runners: 1,
            expires_at: Some((now + 30 * 24 * 60 * 60) as u64),
            features: seq!["basic"@],
            signature: Seq::<char>::empty(),
        }),
{
    let mut features: Vec<String> = Vec::new();
    features.push(String::from_str("basic"));
    let l = License {
        license_key,
        license_type: LicenseType::Trial,
        organization: String::from_str("Trial User"),
        max_runners: 1,
        expires_at: Some(now + 30 * 24 * 60 * 60),
        features,
        signature: String::new(),
    };
    proof {
        assert(strs_view(l.features@) =~= seq!["basic"@]);
        assert(l@ =~~= (LicenseModel {
            license_key: l@.license_key,
            license_type: LicenseType::Trial,
            organization: "Trial User"@,
            max_runners: 1,
            expires_at: Some((now + 30 * 24 * 60 * 60) as u64),
            features: seq!["basic"@],
            signature: Seq::<char>::empty(),
        }));
    }
    Ok(l)
}

} // verus!
