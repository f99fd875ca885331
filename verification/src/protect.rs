use vstd::prelude::*;

use crate::numfmt::hex16_u64;
use crate::numfmt::spec_hex16;
use std::collections::hash_map::DefaultHasher;
use std::hash::Hasher;
use vstd::std_specs::hash::DefaultHasherAdditionalSpecFns;
use vstd::string::StringExecFns;

verus! {

/// XOR of data against a repeating key.
pub open spec fn spec_xor(data: Seq<u8>, key: Seq<u8>) -> Seq<u8>
    recommends
        key.len() > 0,
{
    Seq::new(data.len(), |i: int| data[i] ^ key[i % (key.len() as int)])
}

/// Applying the same repeating key twice restores the data: decryption
/// inverts encryption.
pub proof fn lemma_xor_involution(data: Seq<u8>, key: Seq<u8>)
    requires
        key.len() > 0,
    ensures
        spec_xor(spec_xor(data, key), key) == data,
{
    assert forall|i: int| 0 <= i < data.len() implies spec_xor(spec_xor(data, key), key)[i]
        == data[i] by {
        let k = key[i % (key.len() as int)];
        let d = data[i];
        assert((d ^ k) ^ k == d) by (bit_vector);
    }
    assert(spec_xor(spec_xor(data, key), key) =~= data);
}

/// The digest of a machine identifier: what the default hasher yields
/// after writing the identifier's UTF-8 bytes.
pub open spec fn spec_machine_digest(machine_id: Seq<char>) -> u64 {
    DefaultHasher::spec_finish(seq![vstd::utf8::encode_utf8(machine_id)])
}

/// The 32-byte storage key derived from a machine identifier: the
/// digest's little-endian bytes, repeated four times.
pub open spec fn spec_storage_key(machine_id: Seq<char>) -> Seq<u8> {
    Seq::new(
        32,
        |i: int| ((spec_machine_digest(machine_id) >> ((i % 8) as u64 * 8)) & 0xff) as u8,
    )
}

/// Encrypted storage for sensitive data, keyed by machine identity.
///
/// The caller reads the machine identifier (a platform probe) and hands it
/// to `new`; the derivation and the cipher itself are pure.
#[derive(Debug)]
pub struct SecureStorage {
    key: Vec<u8>,
}

impl View for SecureStorage {
    type V = Seq<u8>;

    closed spec fn view(&self) -> Seq<u8> {
        self.key@
    }
}

impl SecureStorage {
    #[verifier::type_invariant]
    spec fn type_inv(&self) -> bool {
        self.key@.len() == 32
    }

    /// Derive the storage key from the machine identifier.
    pub fn new(machine_id: &str) -> (r: SecureStorage)
        ensures
            r@ == spec_storage_key(machine_id@),
    {
        let mut hasher = DefaultHasher::new();
        hasher.write(machine_id.as_bytes());
        proof {
            assert(hasher@ =~= seq![vstd::utf8::encode_utf8(machine_id@)]);
        }
        let h = hasher.finish();
        let mut key: Vec<u8> = Vec::new();
        let mut i: usize = 0;
        while i < 32
            invariant
                i <= 32,
                key@.len() == i,
                h == spec_machine_digest(machine_id@),
                forall|j: int| 0 <= j < i ==> key@[j] == spec_storage_key(machine_id@)[j],
            decreases 32 - i,
        {
            let shift: u64 = (i as u64 % 8) * 8;
            proof {
                assert((h >> shift) & 0xff < 256) by (bit_vector);
            }
            let b = ((h >> shift) & 0xff) as u8;
            key.push(b);
            proof {
                assert(key@[i as int] == spec_storage_key(machine_id@)[i as int]);
            }
            i = i + 1;
        }
        proof {
            assert(key@ =~= spec_storage_key(machine_id@));
        }
        SecureStorage { key }
    }

    /// Encrypt by XOR against the repeating storage key.
    pub fn encrypt(&self, data: &[u8]) -> (r: Vec<u8>)
        ensures
            r@ == spec_xor(data@, self@),
    {
        proof {
            use_type_invariant(self);
        }
        let n = data.len();
        let mut out: Vec<u8> = Vec::new();
        let mut i: usize = 0;
        while i < n
            invariant
                i <= n,
                n == data@.len(),
                self@.len() == 32,
                out@.len() == i,
                forall|j: int| 0 <= j < i ==> out@[j] == (data@[j] ^ self@[j % 32]),
            decreases n - i,
        {
            let b = data[i] ^ self.key[i % 32];
            out.push(b);
            i = i + 1;
        }
        proof {
            assert(out@ =~= spec_xor(data@, self@));
        }
        out
    }

    /// Decrypt: XOR is symmetric, so this inverts `encrypt` (see
    /// `lemma_xor_involution`).
    pub fn decrypt(&self, data: &[u8]) -> (r: Vec<u8>)
        ensures
            r@ == spec_xor(data@, self@),
    {
        self.encrypt(data)
    }
}

/// The runtime-protection decision: given the outcomes of the environment
/// probes (performed by the caller), either clearance or the first failing
/// check's message.
pub fn run_protection_checks(debugger_detected: bool, binary_integrity: Result<bool, String>) -> (r:
    Result<(), String>)
    ensures
        debugger_detected ==> (r matches Err(e) && e@ == "Debugger detected"@),
        !debugger_detected ==> (match binary_integrity {
            Err(probe) => r matches Err(e) && e@ == probe@,
            Ok(true) => r is Ok,
            Ok(false) => r matches Err(e) && e@ == "Binary integrity check failed"@,
        }),
{
    if debugger_detected {
        return Err(String::from_str("Debugger detected"));
    }
    match binary_integrity {
        Err(e) => Err(e),
        Ok(ok) => {
            if ok {
                Ok(())
            } else {
                Err(String::from_str("Binary integrity check failed"))
            }
        },
    }
}

/// Index of the first newline at or after `i`, or the text's length.
pub open spec fn spec_line_end(s: Seq<char>, i: int) -> int
    decreases s.len() - i,
{
    if i < 0 || i >= s.len() {
        s.len() as int
    } else if s[i] == '\n' {
        i
    } else {
        spec_line_end(s, i + 1)
    }
}

/// `spec_line_end` stays within the line it starts on.
pub proof fn lemma_line_end(s: Seq<char>, i: int)
    requires
        0 <= i <= s.len(),
    ensures
        i <= spec_line_end(s, i) <= s.len(),
    decreases s.len() - i,
{
    if i < s.len() && s[i] != '\n' {
        lemma_line_end(s, i + 1);
    }
}

/// Whether `p` occurs in `s` at position `i`.
pub open spec fn spec_matches_at(s: Seq<char>, i: int, p: Seq<char>) -> bool {
    &&& 0 <= i
    &&& i + p.len() <= s.len()
    &&& forall|k: int| 0 <= k < p.len() ==> s[i + k] == #[trigger] p[k]
}

/// Index of the first character at or after `i` that is not a space or a
/// tab, or the text's length.
pub open spec fn spec_skip_blank(s: Seq<char>, i: int) -> int
    decreases s.len() - i,
{
    if i < 0 || i >= s.len() {
        s.len() as int
    } else if s[i] == ' ' || s[i] == '\t' {
        spec_skip_blank(s, i + 1)
    } else {
        i
    }
}

/// Whether the decimal digit run starting at `i` is present and has a
/// nonzero digit — that is, whether it denotes a nonzero number.
pub open spec fn spec_digits_nonzero(s: Seq<char>, i: int) -> bool
    decreases s.len() - i,
{
    if i < 0 || i >= s.len() {
        false
    } else if '0' <= s[i] <= '9' {
        s[i] != '0' || spec_digits_nonzero(s, i + 1)
    } else {
        false
    }
}

/// Whether, scanning line starts from `i`, the first line beginning with
/// the tracer-pid field name reports a nonzero tracer pid after optional
/// blanks.
pub open spec fn spec_tracer_attached(s: Seq<char>, i: int) -> bool
    decreases s.len() - i,
{
    if i < 0 || i >= s.len() {
        false
    } else if spec_matches_at(s, i, "TracerPid:"@) {
        spec_digits_nonzero(s, spec_skip_blank(s, i + 10))
    } else {
        let e = spec_line_end(s, i);
        if e >= s.len() {
            false
        } else {
            proof {
                lemma_line_end(s, i);
            }
            spec_tracer_attached(s, e + 1)
        }
    }
}

/// Whether process-status text (the `/proc` status format: one
/// `Name:<blanks>value` field per line) reports an attached tracer — a
/// `TracerPid:` line whose value is a nonzero number.  The caller reads
/// the status text from the platform; this decides it.
pub open spec fn spec_status_reports_tracer(s: Seq<char>) -> bool {
    spec_tracer_attached(s, 0)
}

/// Whether `p` occurs in `s` at position `i`.
fn matches_at(s: &str, i: usize, p: &str) -> (r: bool)
    requires
        i <= s@.len(),
    ensures
        r == spec_matches_at(s@, i as int, p@),
{
    let n = s.unicode_len();
    let m = p.unicode_len();
    if m > n - i {
        return false;
    }
    let mut k: usize = 0;
    while k < m
        invariant
            k <= m,
            m == p@.len(),
            n == s@.len(),
            i + m <= n,
            forall|j: int| 0 <= j < k ==> s@[i + j] == #[trigger] p@[j],
        decreases m - k,
    {
        if s.get_char(i + k) != p.get_char(k) {
            return false;
        }
        k = k + 1;
    }
    true
}

/// Index of the first non-blank character at or after `i`, or the text's
/// length.
fn skip_blank_from(s: &str, i: usize) -> (r: usize)
    ensures
        r == spec_skip_blank(s@, i as int),
        i <= r <= s@.len() || (i > s@.len() && r == s@.len()),
    decreases s@.len() - i,
{
    let n = s.unicode_len();
    if i >= n {
        return n;
    }
    let c = s.get_char(i);
    if c == ' ' || c == '\t' {
        skip_blank_from(s, i + 1)
    } else {
        i
    }
}

/// Whether the digit run starting at `i` denotes a nonzero number.
fn digits_nonzero_from(s: &str, i: usize) -> (r: bool)
    ensures
        r == spec_digits_nonzero(s@, i as int),
    decreases s@.len() - i,
{
    let n = s.unicode_len();
    if i >= n {
        return false;
    }
    let c = s.get_char(i);
    if c >= '0' && c <= '9' {
        if c != '0' {
            true
        } else {
            digits_nonzero_from(s, i + 1)
        }
    } else {
        false
    }
}

/// Index of the first newline at or after `i`, or the text's length.
fn line_end_from(s: &str, i: usize) -> (r: usize)
    requires
        i <= s@.len(),
    ensures
        r == spec_line_end(s@, i as int),
        i <= r <= s@.len(),
    decreases s@.len() - i,
{
    let n = s.unicode_len();
    if i >= n {
        return n;
    }
    if s.get_char(i) == '\n' {
        i
    } else {
        line_end_from(s, i + 1)
    }
}

/// Decide, from process-status text, whether a tracer is attached; see
/// `spec_status_reports_tracer`.  The status text itself is read by the
/// caller.
pub fn status_reports_tracer(status: &str) -> (r: bool)
    ensures
        r == spec_status_reports_tracer(status@),
{
    let n = status.unicode_len();
    let mut i: usize = 0;
    loop
        invariant
            i <= n,
            n == status@.len(),
            spec_tracer_attached(status@, 0) == spec_tracer_attached(status@, i as int),
        decreases n - i,
    {
        if i >= n {
            return false;
        }
        if matches_at(status, i, "TracerPid:") {
            proof {
                reveal_strlit("TracerPid:");
                assert("TracerPid:"@.len() == 10);
            }
            let start = skip_blank_from(status, i + 10);
            return digits_nonzero_from(status, start);
        }
        let e = line_end_from(status, i);
        if e >= n {
            proof {
                assert(!spec_tracer_attached(status@, i as int));
            }
            return false;
        }
        proof {
            assert(spec_tracer_attached(status@, i as int) == spec_tracer_attached(
                status@,
                e + 1,
            ));
        }
        i = e + 1;
    }
}

/// The machine fingerprint: the digest of the machine identifier and the
/// host name, as sixteen lowercase hex digits.
pub open spec fn spec_fingerprint(machine_id: Seq<char>, host: Seq<char>) -> Seq<char> {
    spec_hex16(
        DefaultHasher::spec_finish(
            seq![
                vstd::utf8::encode_utf8(machine_id),
                vstd::utf8::encode_utf8(host),
            ],
        ),
    )
}

/// Compute the machine fingerprint from the machine identifier and host
/// name (both read by the caller from the platform).
pub fn machine_fingerprint(machine_id: &str, host: &str) -> (r: String)
    ensures
        r@ == spec_fingerprint(machine_id@, host@),
{
    let mut hasher = DefaultHasher::new();
    hasher.write(machine_id.as_bytes());
    hasher.write(host.as_bytes());
    proof {
        assert(hasher@ =~= seq![
            vstd::utf8::encode_utf8(machine_id@),
            vstd::utf8::encode_utf8(host@),
        ]);
    }
    hex16_u64(hasher.finish())
}

} // verus!
