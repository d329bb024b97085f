//! Stable identity of scheduler runs.
//!
//! Two runs with the same identity are deterministically equivalent, so
//! only one needs to be executed. The `run_key` is the SHA-256 of a compact
//! JSON object holding the identity fields that define the run; the dataset
//! path is provenance only and is not part of it.
use vstd::prelude::*;
use vstd::string::*;
use sha2::Digest;

use crate::cell::MatrixCell;
use crate::text::{owned, push_str, str_eq};

verus! {

/// Metrics schema version that is part of every identity.
pub const METRICS_VERSION: &'static str = "schedule_metrics/1";

/// The semantic identity of one scheduler run.
#[derive(Debug, Clone)]
pub struct RunIdentity {
    /// Dataset id from the specification.
    pub dataset_id: String,
    /// Dataset path, kept for provenance only; not hashed.
    pub dataset_path: String,
    /// SHA-256 hex digest of the raw dataset bytes.
    pub dataset_hash: String,
    /// Algorithm name.
    pub algorithm: String,
    /// Configuration slug.
    pub config_slug: String,
    /// Full configuration as compact JSON.
    pub config_json: String,
    /// Horizon override as compact JSON, if any.
    pub horizon_json: Option<String>,
    /// Scheduler version string.
    pub scheduler_version: String,
    /// Metrics schema version.
    pub metrics_version: String,
}

/// The lowercase hexadecimal digit for `d` (`d < 16`).
pub open spec fn lower_hex_digit(d: nat) -> char {
    if d < 10 {
        crate::text::digit_char(d)
    } else if d == 10 {
        'a'
    } else if d == 11 {
        'b'
    } else if d == 12 {
        'c'
    } else if d == 13 {
        'd'
    } else if d == 14 {
        'e'
    } else {
        'f'
    }
}

/// How one character of a string is written inside a JSON string literal:
/// `"` and `\` get a backslash; backspace, tab, line feed, form feed and
/// carriage return become `\b`, `\t`, `\n`, `\f`, `\r`; the other
/// characters below U+0020 become `\u00` and two lowercase hex digits; every
/// other character is written as it is.
pub open spec fn json_escape_char(c: char) -> Seq<char> {
    let v = c as nat;
    if c == '"' {
        seq!['\\', '"']
    } else if c == '\\' {
        seq!['\\', '\\']
    } else if v == 8 {
        seq!['\\', 'b']
    } else if v == 9 {
        seq!['\\', 't']
    } else if v == 10 {
        seq!['\\', 'n']
    } else if v == 12 {
        seq!['\\', 'f']
    } else if v == 13 {
        seq!['\\', 'r']
    } else if v < 32 {
        seq!['\\', 'u', '0', '0', lower_hex_digit(v / 16), lower_hex_digit(v % 16)]
    } else {
        seq![c]
    }
}

/// The escaped characters of a string.
pub open spec fn json_escape(s: Seq<char>) -> Seq<char>
    decreases s.len(),
{
    if s.len() == 0 {
        Seq::empty()
    } else {
        json_escape(s.drop_last()) + json_escape_char(s.last())
    }
}

/// The JSON string literal of a string: its escaped characters between
/// double quotes.
pub open spec fn json_string_literal(s: Seq<char>) -> Seq<char> {
    seq!['"'] + json_escape(s) + seq!['"']
}

fn hex_digit(d: u32) -> (c: char)
    requires
        d < 16,
    ensures
        c == lower_hex_digit(d as nat),
{
    if d < 10 {
        crate::text::digit(d as u64)
    } else if d == 10 {
        'a'
    } else if d == 11 {
        'b'
    } else if d == 12 {
        'c'
    } else if d == 13 {
        'd'
    } else if d == 14 {
        'e'
    } else {
        'f'
    }
}

fn push_escaped(out: &mut String, c: char)
    ensures
        final(out)@ == old(out)@ + json_escape_char(c),
{
    let v = c as u32;
    if c == '"' {
        out.push('\\');
        out.push('"');
    } else if c == '\\' {
        out.push('\\');
        out.push('\\');
    } else if v == 8 {
        out.push('\\');
        out.push('b');
    } else if v == 9 {
        out.push('\\');
        out.push('t');
    } else if v == 10 {
        out.push('\\');
        out.push('n');
    } else if v == 12 {
        out.push('\\');
        out.push('f');
    } else if v == 13 {
        out.push('\\');
        out.push('r');
    } else if v < 32 {
        out.push('\\');
        out.push('u');
        out.push('0');
        out.push('0');
        out.push(hex_digit(v / 16));
        out.push(hex_digit(v % 16));
    } else {
        out.push(c);
    }
    proof {
        assert(final(out)@ =~= old(out)@ + json_escape_char(c));
    }
}

/// The JSON string literal of `s`, as `serde_json` writes a string.
pub(crate) fn json_string(s: &str) -> (r: String)
    ensures
        r@ == json_string_literal(s@),
{
    let v = crate::text::chars_of(s);
    let mut out = String::new();
    out.push('"');
    let mut i: usize = 0;
    while i < v.len()
        invariant
            i <= v@.len(),
            v@ == s@,
            out@ == seq!['"'] + json_escape(v@.take(i as int)),
        decreases v@.len() - i,
    {
        push_escaped(&mut out, v[i]);
        proof {
            assert(v@.take(i + 1).drop_last() =~= v@.take(i as int));
            assert(v@.take(i + 1).last() == v@[i as int]);
        }
        i = i + 1;
    }
    out.push('"');
    proof {
        assert(v@.take(v@.len() as int) =~= v@);
        assert(out@ =~= json_string_literal(s@));
    }
    out
}

/// The lowercase hexadecimal SHA-256 digest of a byte sequence.
pub uninterp spec fn sha256_lower_hex(bytes: Seq<u8>) -> Seq<char>;

pub open spec fn is_lower_hex_digit(c: char) -> bool {
    ('0' <= c && c <= '9') || ('a' <= c && c <= 'f')
}

/// Calls `sha2::Sha256::digest` and formats the 32-byte digest with `{:x}`.
///
/// Claimed: the result is the named digest of `bytes`; it has 64 characters,
/// each a lowercase hexadecimal digit (generic-array's `LowerHex` writes two
/// digits per byte).
#[verifier::external_body]
pub(crate) fn sha256_hex(bytes: &[u8]) -> (r: String)
    ensures
        r@ == sha256_lower_hex(bytes@),
        r@.len() == 64,
        forall|i: int| 0 <= i < r@.len() ==> is_lower_hex_digit(#[trigger] r@[i]),
{
    format!("{:x}", sha2::Sha256::digest(bytes))
}

/// The SHA-256 hex digest of raw bytes (the dataset hash of a file).
pub fn hash_bytes(bytes: &[u8]) -> (r: String)
    ensures
        r@ == sha256_lower_hex(bytes@),
        r@.len() == 64,
        forall|i: int| 0 <= i < r@.len() ==> is_lower_hex_digit(#[trigger] r@[i]),
{
    sha256_hex(bytes)
}

/// The first 16 hex digits of the SHA-256 of `bytes`.
pub fn sha256_short(bytes: &[u8]) -> (r: String)
    ensures
        r@ == sha256_lower_hex(bytes@).take(16),
{
    let full = sha256_hex(bytes);
    let s = full.as_str();
    proof {
        assert(forall|i: int| 0 <= i < s@.len() ==> (#[trigger] s@[i] as u32) < 128) by {
            assert forall|i: int| 0 <= i < s@.len() implies (#[trigger] s@[i] as u32) < 128 by {
                assert(is_lower_hex_digit(s@[i]));
            }
        }
        assert(vstd::string::is_ascii(s));
    }
    let t = s.substring_ascii(0, 16);
    owned(t)
}

/// The compact JSON object hashed into a run key: the identity fields that
/// define the run, in this order, `horizon_json` being `null` when absent.
pub open spec fn canonical_identity(id: RunIdentity) -> Seq<char> {
    "{\"dataset_id\":"@ + json_string_literal(id.dataset_id@) + ",\"dataset_hash\":"@
        + json_string_literal(id.dataset_hash@) + ",\"algorithm\":"@ + json_string_literal(
        id.algorithm@,
    ) + ",\"config_slug\":"@ + json_string_literal(id.config_slug@) + ",\"config_json\":"@
        + json_string_literal(id.config_json@) + ",\"horizon_json\":"@ + match id.horizon_json {
        Some(h) => json_string_literal(h@),
        None => "null"@,
    } + ",\"scheduler_version\":"@ + json_string_literal(id.scheduler_version@)
        + ",\"metrics_version\":"@ + json_string_literal(id.metrics_version@) + "}"@
}

pub open spec fn spec_run_key(id: RunIdentity) -> Seq<char> {
    sha256_lower_hex(vstd::utf8::encode_utf8(canonical_identity(id)))
}

fn push_field(out: &mut String, name: &str, value: &str)
    ensures
        final(out)@ == old(out)@ + name@ + json_string_literal(value@),
{
    push_str(out, name);
    let lit = json_string(value);
    push_str(out, lit.as_str());
}

impl RunIdentity {
    /// The stable run key: SHA-256 (lowercase hex) of the canonical JSON of
    /// the identity fields; `dataset_path` is excluded.
    pub fn run_key(&self) -> (k: String)
        ensures
            k@ == spec_run_key(*self),
            k@.len() == 64,
            forall|i: int| 0 <= i < k@.len() ==> is_lower_hex_digit(#[trigger] k@[i]),
    {
        let mut c = owned("{\"dataset_id\":");
        let lit = json_string(self.dataset_id.as_str());
        push_str(&mut c, lit.as_str());
        push_field(&mut c, ",\"dataset_hash\":", self.dataset_hash.as_str());
        push_field(&mut c, ",\"algorithm\":", self.algorithm.as_str());
        push_field(&mut c, ",\"config_slug\":", self.config_slug.as_str());
        push_field(&mut c, ",\"config_json\":", self.config_json.as_str());
        push_str(&mut c, ",\"horizon_json\":");
        match &self.horizon_json {
            Some(h) => {
                let lit = json_string(h.as_str());
                push_str(&mut c, lit.as_str());
            },
            None => {
                push_str(&mut c, "null");
            },
        }
        push_field(&mut c, ",\"scheduler_version\":", self.scheduler_version.as_str());
        push_field(&mut c, ",\"metrics_version\":", self.metrics_version.as_str());
        push_str(&mut c, "}");
        proof {
            assert(c@ =~= canonical_identity(*self));
        }
        sha256_hex(c.as_str().as_bytes())
    }
}

/// Two identities that agree on every hashed field have the same run key,
/// whatever their dataset paths.
pub proof fn lemma_run_key_ignores_path(a: RunIdentity, b: RunIdentity)
    requires
        a.dataset_id@ == b.dataset_id@,
        a.dataset_hash@ == b.dataset_hash@,
        a.algorithm@ == b.algorithm@,
        a.config_slug@ == b.config_slug@,
        a.config_json@ == b.config_json@,
        match (a.horizon_json, b.horizon_json) {
            (Some(x), Some(y)) => x@ == y@,
            (None, None) => true,
            _ => false,
        },
        a.scheduler_version@ == b.scheduler_version@,
        a.metrics_version@ == b.metrics_version@,
    ensures
        spec_run_key(a) == spec_run_key(b),
{
    assert(canonical_identity(a) == canonical_identity(b));
}

/// The version string recorded in identities: the build's git commit when
/// one is known and non-empty, otherwise `lab/<crate version>`.
pub open spec fn spec_scheduler_version(git_sha: Option<Seq<char>>, lab_version: Seq<char>) -> Seq<
    char,
> {
    match git_sha {
        Some(s) if s.len() > 0 => s,
        _ => "lab/"@ + lab_version,
    }
}

/// Scheduler version string from the build's git commit (if any) and the
/// crate version.
pub fn scheduler_version(git_sha: Option<&str>, lab_version: &str) -> (v: String)
    ensures
        v@ == spec_scheduler_version(
            match git_sha {
                Some(s) => Some(s@),
                None => None,
            },
            lab_version@,
        ),
{
    if let Some(sha) = git_sha {
        if !sha.is_empty() {
            return owned(sha);
        }
    }
    let mut v = owned("lab/");
    push_str(&mut v, lab_version);
    v
}

/// The identity of a cell's run, from the cell, the hash of its dataset,
/// the JSON of its configuration and horizon override, and the scheduler
/// version.
pub fn build_identity(
    cell: &MatrixCell,
    dataset_hash: String,
    config_json: String,
    horizon_json: Option<String>,
    scheduler_version: &str,
) -> (id: RunIdentity)
    ensures
        id.dataset_id@ == cell.dataset_id@,
        id.dataset_path@ == cell.dataset_path@,
        id.dataset_hash == dataset_hash,
        id.algorithm@ == cell.algorithm@,
        id.config_slug@ == cell.run_config.spec_slug(),
        id.config_json == config_json,
        id.horizon_json == horizon_json,
        id.scheduler_version@ == scheduler_version@,
        id.metrics_version@ == METRICS_VERSION@,
{
    RunIdentity {
        dataset_id: owned(cell.dataset_id.as_str()),
        dataset_path: owned(cell.dataset_path.as_str()),
        dataset_hash,
        algorithm: owned(cell.algorithm.as_str()),
        config_slug: cell.run_config.slug(),
        config_json,
        horizon_json,
        scheduler_version: owned(scheduler_version),
        metrics_version: owned(METRICS_VERSION),
    }
}

/// Checks that a dataset file still has the content an identity recorded.
pub fn check_dataset_hash(identity: &RunIdentity, current_hash: &str) -> (r: Result<(), String>)
    ensures
        r is Ok <==> current_hash@ == identity.dataset_hash@,
        r is Err ==> r->Err_0@ == "dataset hash mismatch for "@ + identity.dataset_path@
            + ": registry has "@ + identity.dataset_hash@ + ", current file has "@ + current_hash@,
{
    if str_eq(current_hash, identity.dataset_hash.as_str()) {
        Ok(())
    } else {
        let mut m = owned("dataset hash mismatch for ");
        push_str(&mut m, identity.dataset_path.as_str());
        push_str(&mut m, ": registry has ");
        push_str(&mut m, identity.dataset_hash.as_str());
        push_str(&mut m, ", current file has ");
        push_str(&mut m, current_hash);
        Err(m)
    }
}

} // verus!
