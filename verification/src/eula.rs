//! EULA handling: the server validates `--eula <hash>` at startup, where the
//! hash is the first 16 hex characters of the SHA-256 of the bundled
//! `EULA.txt`. The flag is only passed after the user explicitly accepted
//! the agreement (`accept_jetbrains_eula` setting).

use vstd::prelude::*;
use sha2::Digest;
use crate::rewrite::hex_fixed;

verus! {

broadcast use vstd::string::group_string_axioms;

/// The SHA-256 digest of `data`.
pub uninterp spec fn sha256_of(data: Seq<u8>) -> Seq<u8>;

/// `sha2::Sha256::digest`. The contract claims that the result is the
/// digest of `data` (named, not computed here) and that it is 32 bytes long;
/// the SHA-256 algorithm itself is left unsaid.
#[verifier::external_body]
fn sha256_digest(data: &[u8]) -> (r: Vec<u8>)
    ensures
        r@ == sha256_of(data@),
        r@.len() == 32,
{
    sha2::Sha256::digest(data).to_vec()
}

/// Two lower-case hexadecimal digits per byte, in order.
pub open spec fn hex_bytes(bs: Seq<u8>) -> Seq<char>
    decreases bs.len(),
{
    if bs.len() == 0 {
        Seq::empty()
    } else {
        hex_bytes(bs.drop_last()) + hex_fixed(bs.last() as nat, 2)
    }
}

pub proof fn lemma_hex_bytes_len(bs: Seq<u8>)
    ensures
        hex_bytes(bs).len() == 2 * bs.len(),
    decreases bs.len(),
{
    if bs.len() > 0 {
        lemma_hex_bytes_len(bs.drop_last());
        assert(hex_fixed(bs.last() as nat, 2).len() == 2) by {
            reveal_with_fuel(hex_fixed, 3);
        }
    }
}

/// The hex text of the first `n` bytes is the first `2 n` characters of the hex text.
pub proof fn lemma_hex_bytes_take(bs: Seq<u8>, n: int)
    requires
        0 <= n <= bs.len(),
    ensures
        hex_bytes(bs).take(2 * n) == hex_bytes(bs.take(n)),
    decreases bs.len(),
{
    lemma_hex_bytes_len(bs);
    lemma_hex_bytes_len(bs.take(n));
    if n == bs.len() {
        assert(bs.take(n) =~= bs);
        assert(hex_bytes(bs).take(2 * n) =~= hex_bytes(bs));
    } else {
        lemma_hex_bytes_take(bs.drop_last(), n);
        lemma_hex_bytes_len(bs.drop_last());
        assert(bs.drop_last().take(n) =~= bs.take(n));
        assert(hex_bytes(bs).take(2 * n) =~= hex_bytes(bs.drop_last()).take(2 * n));
    }
}

/// The first `len` hexadecimal characters of a digest (`len / 2` bytes, or
/// all of them when the digest is shorter).
pub open spec fn spec_hex_prefix(digest: Seq<u8>, len: nat) -> Seq<char> {
    let n = if len / 2 <= digest.len() { len / 2 } else { digest.len() };
    hex_bytes(digest.take(n as int))
}

/// Appends the two hexadecimal digits of `b`.
fn push_hex_byte(out: &mut String, b: u8)
    ensures
        final(out)@ == old(out)@ + hex_fixed(b as nat, 2),
{
    let hi = b / 16;
    let lo = b % 16;
    let c1 = if hi < 10 { (48 + hi) as char } else { (87 + hi) as char };
    let c2 = if lo < 10 { (48 + lo) as char } else { (87 + lo) as char };
    crate::text::push_char(out, c1);
    crate::text::push_char(out, c2);
    proof {
        reveal_with_fuel(hex_fixed, 3);
        assert((b as nat / 16) % 16 == hi as nat);
        assert(out@ =~= old(out)@ + hex_fixed(b as nat, 2));
    }
}

/// First `len` hexadecimal characters of the digest (`len` must be even).
pub fn hex_prefix(digest: &[u8], len: usize) -> (r: String)
    ensures
        r@ == spec_hex_prefix(digest@, len as nat),
{
    let n = if len / 2 <= digest.len() { len / 2 } else { digest.len() };
    let mut out = String::new();
    let mut i: usize = 0;
    while i < n
        invariant
            i <= n,
            n <= digest@.len(),
            out@ == hex_bytes(digest@.take(i as int)),
        decreases n - i,
    {
        push_hex_byte(&mut out, digest[i]);
        proof {
            assert(digest@.take(i + 1).drop_last() =~= digest@.take(i as int));
        }
        i = i + 1;
    }
    out
}

/// The SHA-256 of `bytes` as 64 lower-case hexadecimal characters.
pub fn sha256_hex(bytes: &[u8]) -> (r: String)
    ensures
        r@ == hex_bytes(sha256_of(bytes@)),
        r@.len() == 64,
        sha256_of(bytes@).len() == 32,
{
    let digest = sha256_digest(bytes);
    let r = hex_prefix(digest.as_slice(), 64);
    proof {
        assert(digest@.take(32) =~= digest@);
        lemma_hex_bytes_len(digest@);
    }
    r
}

/// The acceptance hash of the EULA text `contents` read from `eula_path`:
/// the first 16 hex characters of its SHA-256, or the read error.
pub fn eula_hash(eula_path: &str, contents: Result<Vec<u8>, String>) -> (r: Result<String, String>)
    ensures
        match contents {
            Ok(bytes) => r is Ok && r->Ok_0@ == hex_bytes(sha256_of(bytes@).take(8)),
            Err(e) => r is Err && r->Err_0@ == "Cannot read "@ + eula_path@ + ": "@ + e@,
        },
{
    match contents {
        Ok(bytes) => {
            let digest = sha256_digest(bytes.as_slice());
            Ok(hex_prefix(digest.as_slice(), 16))
        },
        Err(e) => {
            let mut msg = String::from_str("Cannot read ");
            msg.append(eula_path);
            msg.append(": ");
            msg.append(e.as_str());
            Err(msg)
        },
    }
}

/// The message shown when the agreement at `eula_path` has not been accepted yet.
pub open spec fn spec_acceptance_error(eula_path: Seq<char>) -> Seq<char> {
    "The JetBrains intellij-server backend is distributed under the JetBrains LSP \
     Extension Public EAP Agreement, which you must read and accept before the server \
     can start.\n\nRead the agreement at:\n  "@ + eula_path
        + "\n\nThen accept it in your Zed settings:\n  \
     \"lsp\": { \"intellij-server\": { \"settings\": { \"accept_jetbrains_eula\": true } } }"@
}

/// The message shown when the agreement has not been accepted yet.
pub fn acceptance_error(eula_path: &str) -> (r: String)
    ensures
        r@ == spec_acceptance_error(eula_path@),
{
    let mut msg = String::from_str(
        "The JetBrains intellij-server backend is distributed under the JetBrains LSP \
         Extension Public EAP Agreement, which you must read and accept before the server \
         can start.\n\nRead the agreement at:\n  ",
    );
    msg.append(eula_path);
    msg.append(
        "\n\nThen accept it in your Zed settings:\n  \
         \"lsp\": { \"intellij-server\": { \"settings\": { \"accept_jetbrains_eula\": true } } }",
    );
    msg
}

} // verus!
