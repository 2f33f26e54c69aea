//! Provenance vocabulary: source types, verification states, anomaly severities,
//! the signature payload layout and the hexadecimal text of signatures.

use vstd::prelude::*;
use vstd::string::StringExecFns;
use vstd::string::StrSliceExecFns;
use vstd::string::StringSliceAdditionalSpecFns;
use crate::text::str_eq;
use crate::storage::{decode_id, encode_id, lemma_id_roundtrip, spec_decode_id, spec_encode_id};
use vstd::slice::slice_subrange;

verus! {

/// Severity of an anomaly flagged on a provenance envelope.
#[derive(Debug, Clone, Copy, PartialEq, Eq, Structural)]
pub enum AnomalySeverity {
    Low,
    Medium,
    High,
    Critical,
}

/// The text form of each `AnomalySeverity`.
pub open spec fn anomaly_severity_name(x: AnomalySeverity) -> Seq<char> {
    match x {
        AnomalySeverity::Low => "low"@,
        AnomalySeverity::Medium => "medium"@,
        AnomalySeverity::High => "high"@,
        AnomalySeverity::Critical => "critical"@,
    }
}

/// The `AnomalySeverity` that a text names; any other text reads as `Low`.
pub open spec fn anomaly_severity_parse(s: Seq<char>) -> AnomalySeverity {
    if s == "low"@ {
        AnomalySeverity::Low
    } else if s == "medium"@ {
        AnomalySeverity::Medium
    } else if s == "high"@ {
        AnomalySeverity::High
    } else if s == "critical"@ {
        AnomalySeverity::Critical
    } else {
        AnomalySeverity::Low
    }
}

impl AnomalySeverity {
    /// The text form of this value.
    pub fn as_str(&self) -> (r: &'static str)
        ensures
            r@ == anomaly_severity_name(*self),
    {
        match self {
            AnomalySeverity::Low => "low",
            AnomalySeverity::Medium => "medium",
            AnomalySeverity::High => "high",
            AnomalySeverity::Critical => "critical",
        }
    }

    /// Parses the text form; any other text reads as `Low`.
    pub fn from_str(s: &str) -> (r: AnomalySeverity)
        ensures
            r == anomaly_severity_parse(s@),
    {
        if str_eq(s, "low") {
            AnomalySeverity::Low
        } else if str_eq(s, "medium") {
            AnomalySeverity::Medium
        } else if str_eq(s, "high") {
            AnomalySeverity::High
        } else if str_eq(s, "critical") {
            AnomalySeverity::Critical
        } else {
            AnomalySeverity::Low
        }
    }
}

/// Reading back the text form of a `AnomalySeverity` gives the same value, and a text
/// that reads as a value is that value's text form.
pub proof fn lemma_anomaly_severity_roundtrip(x: AnomalySeverity, s: Seq<char>)
    ensures
        anomaly_severity_parse(anomaly_severity_name(x)) == x,
        anomaly_severity_parse(s) == x && s != anomaly_severity_name(x) ==> x == AnomalySeverity::Low,
{
    reveal_strlit("low");
    reveal_strlit("medium");
    reveal_strlit("high");
    reveal_strlit("critical");
    assert("medium"@.len() != "low"@.len());
    assert("high"@.len() != "low"@.len());
    assert("high"@.len() != "medium"@.len());
    assert("critical"@.len() != "low"@.len());
    assert("critical"@.len() != "medium"@.len());
    assert("critical"@.len() != "high"@.len());
}
/// Where the data of a provenance envelope came from.
#[derive(Debug, Clone, Copy, PartialEq, Eq, Structural)]
pub enum ProvenanceSourceType {
    Peer,
    Import,
    Model,
    User,
    Sensor,
    AiQuery,
    Unknown,
}

/// The text form of each `ProvenanceSourceType`.
pub open spec fn provenance_source_type_name(x: ProvenanceSourceType) -> Seq<char> {
    match x {
        ProvenanceSourceType::Peer => "peer"@,
        ProvenanceSourceType::Import => "import"@,
        ProvenanceSourceType::Model => "model"@,
        ProvenanceSourceType::User => "user"@,
        ProvenanceSourceType::Sensor => "sensor"@,
        ProvenanceSourceType::AiQuery => "ai_query"@,
        ProvenanceSourceType::Unknown => "unknown"@,
    }
}

/// The `ProvenanceSourceType` that a text names; any other text reads as `Unknown`.
pub open spec fn provenance_source_type_parse(s: Seq<char>) -> ProvenanceSourceType {
    if s == "peer"@ {
        ProvenanceSourceType::Peer
    } else if s == "import"@ {
        ProvenanceSourceType::Import
    } else if s == "model"@ {
        ProvenanceSourceType::Model
    } else if s == "user"@ {
        ProvenanceSourceType::User
    } else if s == "sensor"@ {
        ProvenanceSourceType::Sensor
    } else if s == "ai_query"@ {
        ProvenanceSourceType::AiQuery
    } else if s == "unknown"@ {
        ProvenanceSourceType::Unknown
    } else {
        ProvenanceSourceType::Unknown
    }
}

impl ProvenanceSourceType {
    /// The text form of this value.
    pub fn as_str(&self) -> (r: &'static str)
        ensures
            r@ == provenance_source_type_name(*self),
    {
        match self {
            ProvenanceSourceType::Peer => "peer",
            ProvenanceSourceType::Import => "import",
            ProvenanceSourceType::Model => "model",
            ProvenanceSourceType::User => "user",
            ProvenanceSourceType::Sensor => "sensor",
            ProvenanceSourceType::AiQuery => "ai_query",
            ProvenanceSourceType::Unknown => "unknown",
        }
    }

    /// Parses the text form; any other text reads as `Unknown`.
    pub fn from_str(s: &str) -> (r: ProvenanceSourceType)
        ensures
            r == provenance_source_type_parse(s@),
    {
        if str_eq(s, "peer") {
            ProvenanceSourceType::Peer
        } else if str_eq(s, "import") {
            ProvenanceSourceType::Import
        } else if str_eq(s, "model") {
            ProvenanceSourceType::Model
        } else if str_eq(s, "user") {
            ProvenanceSourceType::User
        } else if str_eq(s, "sensor") {
            ProvenanceSourceType::Sensor
        } else if str_eq(s, "ai_query") {
            ProvenanceSourceType::AiQuery
        } else if str_eq(s, "unknown") {
            ProvenanceSourceType::Unknown
        } else {
            ProvenanceSourceType::Unknown
        }
    }
}

/// Reading back the text form of a `ProvenanceSourceType` gives the same value, and a text
/// that reads as a value is that value's text form.
pub proof fn lemma_provenance_source_type_roundtrip(x: ProvenanceSourceType, s: Seq<char>)
    ensures
        provenance_source_type_parse(provenance_source_type_name(x)) == x,
        provenance_source_type_parse(s) == x && s != provenance_source_type_name(x) ==> x == ProvenanceSourceType::Unknown,
{
    reveal_strlit("peer");
    reveal_strlit("import");
    reveal_strlit("model");
    reveal_strlit("user");
    reveal_strlit("sensor");
    reveal_strlit("ai_query");
    reveal_strlit("unknown");
    assert("import"@.len() != "peer"@.len());
    assert("model"@.len() != "peer"@.len());
    assert("model"@.len() != "import"@.len());
    assert("user"@[0] != "peer"@[0]);
    assert("user"@.len() != "import"@.len());
    assert("user"@.len() != "model"@.len());
    assert("sensor"@.len() != "peer"@.len());
    assert("sensor"@[0] != "import"@[0]);
    assert("sensor"@.len() != "model"@.len());
    assert("sensor"@.len() != "user"@.len());
    assert("ai_query"@.len() != "peer"@.len());
    assert("ai_query"@.len() != "import"@.len());
    assert("ai_query"@.len() != "model"@.len());
    assert("ai_query"@.len() != "user"@.len());
    assert("ai_query"@.len() != "sensor"@.len());
    assert("unknown"@.len() != "peer"@.len());
    assert("unknown"@.len() != "import"@.len());
    assert("unknown"@.len() != "model"@.len());
    assert("unknown"@.len() != "user"@.len());
    assert("unknown"@.len() != "sensor"@.len());
    assert("unknown"@.len() != "ai_query"@.len());
}
/// Signature verification state of a provenance envelope.
#[derive(Debug, Clone, Copy, PartialEq, Eq, Structural)]
pub enum ProvenanceVerificationStatus {
    Unverified,
    Verified,
    Failed,
    KeyRequested,
    TrustAll,
}

/// The text form of each `ProvenanceVerificationStatus`.
pub open spec fn provenance_verification_status_name(x: ProvenanceVerificationStatus) -> Seq<char> {
    match x {
        ProvenanceVerificationStatus::Unverified => "unverified"@,
        ProvenanceVerificationStatus::Verified => "verified"@,
        ProvenanceVerificationStatus::Failed => "failed"@,
        ProvenanceVerificationStatus::KeyRequested => "key_requested"@,
        ProvenanceVerificationStatus::TrustAll => "trust_all"@,
    }
}

/// The `ProvenanceVerificationStatus` that a text names; any other text reads as `Unverified`.
pub open spec fn provenance_verification_status_parse(s: Seq<char>) -> ProvenanceVerificationStatus {
    if s == "unverified"@ {
        ProvenanceVerificationStatus::Unverified
    } else if s == "verified"@ {
        ProvenanceVerificationStatus::Verified
    } else if s == "failed"@ {
        ProvenanceVerificationStatus::Failed
    } else if s == "key_requested"@ {
        ProvenanceVerificationStatus::KeyRequested
    } else if s == "trust_all"@ {
        ProvenanceVerificationStatus::TrustAll
    } else {
        ProvenanceVerificationStatus::Unverified
    }
}

impl ProvenanceVerificationStatus {
    /// The text form of this value.
    pub fn as_str(&self) -> (r: &'static str)
        ensures
            r@ == provenance_verification_status_name(*self),
    {
        match self {
            ProvenanceVerificationStatus::Unverified => "unverified",
            ProvenanceVerificationStatus::Verified => "verified",
            ProvenanceVerificationStatus::Failed => "failed",
            ProvenanceVerificationStatus::KeyRequested => "key_requested",
            ProvenanceVerificationStatus::TrustAll => "trust_all",
        }
    }

    /// Parses the text form; any other text reads as `Unverified`.
    pub fn from_str(s: &str) -> (r: ProvenanceVerificationStatus)
        ensures
            r == provenance_verification_status_parse(s@),
    {
        if str_eq(s, "unverified") {
            ProvenanceVerificationStatus::Unverified
        } else if str_eq(s, "verified") {
            ProvenanceVerificationStatus::Verified
        } else if str_eq(s, "failed") {
            ProvenanceVerificationStatus::Failed
        } else if str_eq(s, "key_requested") {
            ProvenanceVerificationStatus::KeyRequested
        } else if str_eq(s, "trust_all") {
            ProvenanceVerificationStatus::TrustAll
        } else {
            ProvenanceVerificationStatus::Unverified
        }
    }
}

/// Reading back the text form of a `ProvenanceVerificationStatus` gives the same value, and a text
/// that reads as a value is that value's text form.
pub proof fn lemma_provenance_verification_status_roundtrip(x: ProvenanceVerificationStatus, s: Seq<char>)
    ensures
        provenance_verification_status_parse(provenance_verification_status_name(x)) == x,
        provenance_verification_status_parse(s) == x && s != provenance_verification_status_name(x) ==> x == ProvenanceVerificationStatus::Unverified,
{
    reveal_strlit("unverified");
    reveal_strlit("verified");
    reveal_strlit("failed");
    reveal_strlit("key_requested");
    reveal_strlit("trust_all");
    assert("verified"@.len() != "unverified"@.len());
    assert("failed"@.len() != "unverified"@.len());
    assert("failed"@.len() != "verified"@.len());
    assert("key_requested"@.len() != "unverified"@.len());
    assert("key_requested"@.len() != "verified"@.len());
    assert("key_requested"@.len() != "failed"@.len());
    assert("trust_all"@.len() != "unverified"@.len());
    assert("trust_all"@.len() != "verified"@.len());
    assert("trust_all"@.len() != "failed"@.len());
    assert("trust_all"@.len() != "key_requested"@.len());
}
/// The text that is signed for an envelope: `contentHash|createdAtUtc|pkiId|userId`.
pub open spec fn spec_signature_text(
    content_hash: Seq<char>,
    created_at_utc: Seq<char>,
    pki_id: Seq<char>,
    user_id: Seq<char>,
) -> Seq<char> {
    content_hash + "|"@ + created_at_utc + "|"@ + pki_id + "|"@ + user_id
}

/// Build the signature payload: the UTF-8 bytes of `contentHash|createdAtUtc|pkiId|userId`.
pub fn build_signature_payload(
    content_hash: &str,
    created_at_utc: &str,
    pki_id: &str,
    user_id: &str,
) -> (r: Vec<u8>)
    ensures
        r@ == vstd::utf8::encode_utf8(
            spec_signature_text(content_hash@, created_at_utc@, pki_id@, user_id@),
        ),
{
    let mut s = String::from_str(content_hash);
    s.append("|");
    s.append(created_at_utc);
    s.append("|");
    s.append(pki_id);
    s.append("|");
    s.append(user_id);
    s.as_str().as_bytes_vec()
}

/// The value of an ASCII hexadecimal digit (either case), if `b` is one.
pub open spec fn hex_digit_value(b: u8) -> Option<u8> {
    if 48 <= b <= 57 {
        Some((b - 48) as u8)
    } else if 97 <= b <= 102 {
        Some((b - 87) as u8)
    } else if 65 <= b <= 70 {
        Some((b - 55) as u8)
    } else {
        None
    }
}

/// The byte that a two-byte hexadecimal group reads as, if any. As with
/// `u8::from_str_radix(_, 16)`, a leading `+` before a single digit is allowed.
pub open spec fn hex_pair_value(hi: u8, lo: u8) -> Option<u8> {
    match (hex_digit_value(hi), hex_digit_value(lo)) {
        (Some(h), Some(l)) => Some((h * 16 + l) as u8),
        (None, Some(l)) => if hi == 43 {
            Some(l)
        } else {
            None
        },
        _ => None,
    }
}

/// Every two-byte group of `b` reads as a byte.
pub open spec fn hex_pairs_valid(b: Seq<u8>) -> bool {
    forall|k: int| 0 <= k < b.len() / 2 ==> (#[trigger] hex_pair_value(b[2 * k], b[2 * k + 1])) is Some
}

/// The bytes that the two-byte groups of `b` read as.
pub open spec fn hex_pairs_decoded(b: Seq<u8>) -> Seq<u8> {
    Seq::new((b.len() / 2) as nat, |k: int| hex_pair_value(b[2 * k], b[2 * k + 1])->0)
}

/// Every even byte offset of `s` falls on a character boundary, so that the
/// two-byte groups of `s` can be cut out of it.
pub open spec fn hex_groups_cuttable(s: &str) -> bool {
    forall|k: int|
        0 <= k && 2 * k < s.spec_bytes().len() ==> vstd::utf8::is_char_boundary(
            s.spec_bytes(),
            #[trigger] (2 * k),
        )
}

/// Whether every even byte offset of `s` falls on a character boundary: the
/// condition under which `hex_decode` can cut `s` into two-byte groups.
pub fn hex_cuttable(s: &str) -> (r: bool)
    ensures
        r == hex_groups_cuttable(s),
{
    let b = s.as_bytes();
    let n = b.len();
    let mut i: usize = 0;
    while i < n
        invariant
            b@ == s.spec_bytes(),
            n == b@.len(),
            i % 2 == 0,
            forall|k: int| 0 <= k && 2 * k < i ==> vstd::utf8::is_char_boundary(s.spec_bytes(), #[trigger] (2 * k)),
        decreases n - i,
    {
        if !s.is_char_boundary(i) {
            proof {
                assert(vstd::utf8::is_char_boundary(s.spec_bytes(), 2 * (i as int / 2)) == false);
            }
            return false;
        }
        if n - i < 2 {
            proof {
                assert forall|k: int| 0 <= k && 2 * k < n implies vstd::utf8::is_char_boundary(s.spec_bytes(), #[trigger] (2 * k)) by {
                    if 2 * k >= i {
                        assert(2 * k == i);
                    }
                }
            }
            return true;
        }
        i = i + 2;
    }
    true
}

/// The value of one hexadecimal digit byte.
fn hex_digit(b: u8) -> (r: Option<u8>)
    ensures
        r == hex_digit_value(b),
{
    if 48 <= b && b <= 57 {
        Some(b - 48)
    } else if 97 <= b && b <= 102 {
        Some(b - 87)
    } else if 65 <= b && b <= 70 {
        Some(b - 55)
    } else {
        None
    }
}

/// Decode a hexadecimal text into bytes: each two-byte group is one byte.
/// Fails with `odd length` on an odd byte length, and with the parse error of
/// `u8::from_str_radix` (`invalid digit found in string`) on a group that is
/// not hexadecimal.
pub fn hex_decode(s: &str) -> (r: Result<Vec<u8>, String>)
    requires
        hex_groups_cuttable(s),
    ensures
        r is Ok <==> (s.spec_bytes().len() % 2 == 0 && hex_pairs_valid(s.spec_bytes())),
        r matches Ok(v) ==> v@ == hex_pairs_decoded(s.spec_bytes()),
        s.spec_bytes().len() % 2 != 0 ==> (r matches Err(m) && m@ == "odd length"@),
        s.spec_bytes().len() % 2 == 0 && !hex_pairs_valid(s.spec_bytes()) ==> (r matches Err(m) && m@
            == "invalid digit found in string"@),
{
    let b = s.as_bytes();
    let n = b.len();
    if n % 2 != 0 {
        proof {
            reveal_strlit("odd length");
        }
        return Err(String::from_str("odd length"));
    }
    let mut out: Vec<u8> = Vec::new();
    let mut k: usize = 0;
    while k < n / 2
        invariant
            b@ == s.spec_bytes(),
            n == b@.len(),
            n % 2 == 0,
            k <= n / 2,
            out@.len() == k,
            forall|j: int| 0 <= j < k ==> (#[trigger] hex_pair_value(b@[2 * j], b@[2 * j + 1])) is Some,
            forall|j: int| 0 <= j < k ==> out@[j] == hex_pair_value(b@[2 * j], b@[2 * j + 1])->0,
        decreases n / 2 - k,
    {
        let hi = b[2 * k];
        let lo = b[2 * k + 1];
        proof {
            if hex_pair_value(hi, lo) is None {
                assert(!hex_pairs_valid(s.spec_bytes())) by {
                    assert(hex_pair_value(b@[2 * (k as int)], b@[2 * (k as int) + 1]) is None);
                }
            }
        }
        let v = match (hex_digit(hi), hex_digit(lo)) {
            (Some(h), Some(l)) => h * 16 + l,
            (None, Some(l)) => {
                if hi == 43 {
                    l
                } else {
                    proof {
                        reveal_strlit("invalid digit found in string");
                    }
                    return Err(String::from_str("invalid digit found in string"));
                }
            },
            _ => {
                proof {
                    reveal_strlit("invalid digit found in string");
                }
                return Err(String::from_str("invalid digit found in string"));
            },
        };
        out.push(v);
        k = k + 1;
    }
    proof {
        assert(out@ =~= hex_pairs_decoded(s.spec_bytes()));
    }
    Ok(out)
}

/// The lowercase hexadecimal digit for a value below 16.
pub open spec fn hex_char(d: u8) -> char {
    if d < 10 {
        (48 + d) as char
    } else {
        (87 + d) as char
    }
}

/// The lowercase hexadecimal text of a byte sequence, two digits per byte.
pub open spec fn spec_hex_encode(b: Seq<u8>) -> Seq<char> {
    Seq::new(2 * b.len(), |i: int| if i % 2 == 0 {
        hex_char(b[i / 2] / 16)
    } else {
        hex_char(b[i / 2] % 16)
    })
}

fn hex_digit_char(d: u8) -> (c: char)
    requires
        d < 16,
    ensures
        c == hex_char(d),
{
    let chars: [char; 16] = ['0', '1', '2', '3', '4', '5', '6', '7', '8', '9', 'a', 'b', 'c', 'd', 'e', 'f'];
    let c = chars[d as usize];
    c
}

/// Encode bytes as lowercase hexadecimal text.
pub fn hex_encode(bytes: &[u8]) -> (r: String)
    ensures
        r@ == spec_hex_encode(bytes@),
{
    let mut s = String::new();
    let mut i: usize = 0;
    while i < bytes.len()
        invariant
            i <= bytes.len(),
            s@ == spec_hex_encode(bytes@).take(2 * i),
        decreases bytes.len() - i,
    {
        let b = bytes[i];
        crate::text::push_char(&mut s, hex_digit_char(b / 16));
        crate::text::push_char(&mut s, hex_digit_char(b % 16));
        proof {
            assert(s@ =~= spec_hex_encode(bytes@).take(2 * i + 2));
        }
        i = i + 1;
    }
    proof {
        assert(spec_hex_encode(bytes@).take(2 * bytes@.len() as int) =~= spec_hex_encode(bytes@));
    }
    s
}

/// A hexadecimal digit reads back as the value it was written for.
proof fn lemma_hex_digit_roundtrip(d: u8)
    requires
        d < 16,
    ensures
        (hex_char(d) as u8) as int == (if d < 10 { 48 + d } else { 87 + d }),
        hex_digit_value(hex_char(d) as u8) == Some(d),
        '\0' <= hex_char(d) <= '\u{7f}',
{
}

/// Hexadecimal text decodes back to the bytes it encodes: its UTF-8 bytes are
/// twice as many as the input, fall on character boundaries at every even
/// offset, and read pair by pair as the input bytes.
pub proof fn lemma_hex_roundtrip(b: Seq<u8>)
    ensures
        ({
            let t = vstd::utf8::encode_utf8(spec_hex_encode(b));
            &&& t.len() == 2 * b.len()
            &&& forall|k: int| 0 <= k && 2 * k < t.len() ==> vstd::utf8::is_char_boundary(t, #[trigger] (2 * k))
            &&& hex_pairs_valid(t)
            &&& hex_pairs_decoded(t) == b
        }),
{
    let s = spec_hex_encode(b);
    assert forall|i: int| 0 <= i < s.len() implies '\0' <= #[trigger] s[i] <= '\u{7f}' by {
        lemma_hex_digit_roundtrip(b[i / 2] / 16);
        lemma_hex_digit_roundtrip(b[i / 2] % 16);
    }
    assert(vstd::utf8::is_ascii_chars(s));
    vstd::utf8::is_ascii_chars_encode_utf8(s);
    vstd::utf8::encode_utf8_valid_utf8(s);
    let t = vstd::utf8::encode_utf8(s);
    assert forall|k: int| 0 <= k && 2 * k < t.len() implies vstd::utf8::is_char_boundary(t, #[trigger] (2 * k)) by {
        lemma_hex_digit_roundtrip(b[k] / 16);
        assert(s[2 * k] == hex_char(b[k] / 16));
        assert(t[2 * k] == s[2 * k] as u8);
        vstd::utf8::is_char_boundary_iff_not_is_continuation_byte(t, 2 * k);
    }
    assert forall|k: int| 0 <= k < t.len() / 2 implies #[trigger] hex_pair_value(t[2 * k], t[2 * k + 1]) == Some(b[k]) by {
        let hi = b[k] / 16;
        let lo = b[k] % 16;
        lemma_hex_digit_roundtrip(hi);
        lemma_hex_digit_roundtrip(lo);
        assert(s[2 * k] == hex_char(hi));
        assert(s[2 * k + 1] == hex_char(lo));
        assert(t[2 * k] == s[2 * k] as u8);
        assert(t[2 * k + 1] == s[2 * k + 1] as u8);
        assert((hi * 16 + lo) as u8 == b[k]);
    }
    assert(hex_pairs_decoded(t) =~= b);
}

/// The key prefix under which a record's envelopes are indexed: the
/// collection's bytes, a zero byte, and the record id in big-endian order.
pub open spec fn spec_record_index_prefix(collection: Seq<u8>, record_id: i64) -> Seq<u8> {
    collection + seq![0u8] + spec_encode_id(record_id)
}

/// The index key prefix of a record.
pub fn record_index_prefix(collection: &str, record_id: i64) -> (r: Vec<u8>)
    ensures
        r@ == spec_record_index_prefix(collection.spec_bytes(), record_id),
{
    let bytes = collection.as_bytes();
    let mut key: Vec<u8> = Vec::new();
    let mut i: usize = 0;
    while i < bytes.len()
        invariant
            i <= bytes@.len(),
            bytes@ == collection.spec_bytes(),
            key@ == bytes@.take(i as int),
        decreases bytes.len() - i,
    {
        key.push(bytes[i]);
        proof {
            assert(key@ =~= bytes@.take(i + 1));
        }
        i = i + 1;
    }
    key.push(0u8);
    let id = encode_id(record_id);
    let mut j: usize = 0;
    proof {
        assert(bytes@.take(bytes@.len() as int) =~= bytes@);
    }
    while j < 8
        invariant
            j <= 8,
            id@ == spec_encode_id(record_id),
            id@.len() == 8,
            key@ == collection.spec_bytes() + seq![0u8] + id@.take(j as int),
        decreases 8 - j,
    {
        key.push(id[j]);
        proof {
            assert(key@ =~= collection.spec_bytes() + seq![0u8] + id@.take(j + 1));
        }
        j = j + 1;
    }
    proof {
        assert(id@.take(8) =~= id@);
    }
    key
}

/// The index key of one envelope of a record: the record's prefix followed by
/// the envelope id in big-endian order.
pub fn record_index_key(collection: &str, record_id: i64, envelope_id: i64) -> (r: Vec<u8>)
    ensures
        r@ == spec_record_index_prefix(collection.spec_bytes(), record_id) + spec_encode_id(envelope_id),
{
    let mut key = record_index_prefix(collection, record_id);
    let id = encode_id(envelope_id);
    let ghost prefix = key@;
    let mut j: usize = 0;
    while j < 8
        invariant
            j <= 8,
            id@ == spec_encode_id(envelope_id),
            id@.len() == 8,
            key@ == prefix + id@.take(j as int),
        decreases 8 - j,
    {
        key.push(id[j]);
        proof {
            assert(key@ =~= prefix + id@.take(j + 1));
        }
        j = j + 1;
    }
    proof {
        assert(id@.take(8) =~= id@);
    }
    key
}

/// The envelope id an index key ends with: its last eight bytes, where it
/// has that many.
pub fn envelope_id_of_index_key(key: &[u8]) -> (r: Option<i64>)
    ensures
        key@.len() >= 8 ==> r == Some(spec_decode_id(key@.skip(key@.len() - 8))),
        key@.len() < 8 ==> r is None,
{
    if key.len() < 8 {
        return None;
    }
    let n = key.len();
    let tail = slice_subrange(key, n - 8, n);
    proof {
        assert(tail@ =~= key@.skip(key@.len() - 8));
    }
    match decode_id(tail) {
        Ok(id) => Some(id),
        Err(_) => None,
    }
}

/// An envelope's index key gives back the envelope's id.
pub proof fn lemma_index_key_roundtrip(collection: Seq<u8>, record_id: i64, envelope_id: i64)
    ensures
        ({
            let key = spec_record_index_prefix(collection, record_id) + spec_encode_id(envelope_id);
            &&& key.len() >= 8
            &&& spec_decode_id(key.skip(key.len() - 8)) == envelope_id
        }),
{
    lemma_id_roundtrip(envelope_id);
    lemma_id_roundtrip(record_id);
    let key = spec_record_index_prefix(collection, record_id) + spec_encode_id(envelope_id);
    assert(key.skip(key.len() - 8) =~= spec_encode_id(envelope_id));
}

} // verus!
