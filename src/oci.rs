//! Where models pulled from registries live on disk.

use crate::error::{DmrletError, DmrletResult};
use crate::text::hex_char;
use std::collections::hash_map::DefaultHasher;
use std::hash::{Hash, Hasher};
use vstd::std_specs::hash::DefaultHasherAdditionalSpecFns;
use vstd::arithmetic::power::pow;
use vstd::prelude::*;

verus! {

/// Stores models pulled from OCI registries under a base directory.
pub struct OciStore {
    /// Base path for model storage
    base_path: String,
}

/// Whether std's `char::is_alphanumeric` holds of `c`.
pub uninterp spec fn alphanumeric(c: char) -> bool;

/// Relies on std's `char::is_alphanumeric`: whether `c` is alphabetic or
/// numeric in Unicode's sense, a function of `c` alone.
#[verifier::external_body]
fn is_alphanumeric(c: char) -> (r: bool)
    ensures
        r == alphanumeric(c),
{
    c.is_alphanumeric()
}

/// The writes that std's `Hash for str` makes into a hasher that has seen
/// `writes`, when it hashes `s`.
pub uninterp spec fn str_hash_writes(writes: Seq<Seq<u8>>, s: Seq<char>) -> Seq<Seq<u8>>;

/// Relies on std's `Hash for str`: what it feeds the hasher depends on the
/// text alone.
#[verifier::external_body]
fn hash_str(s: &str, state: &mut DefaultHasher)
    ensures
        final(state)@ == str_hash_writes(old(state)@, s@),
{
    s.hash(state)
}

/// The hash that a fresh `DefaultHasher` gives for the text `s`.
pub open spec fn default_hash_of(s: Seq<char>) -> u64 {
    DefaultHasher::spec_finish(str_hash_writes(Seq::empty(), s))
}

/// The hash of `s` by a fresh `DefaultHasher`, which is not seeded.
fn default_hash(s: &str) -> (r: u64)
    ensures
        r == default_hash_of(s@),
{
    let mut hasher = DefaultHasher::new();
    hash_str(s, &mut hasher);
    hasher.finish()
}

/// The character that stands for `c` in a file name: itself when
/// alphanumeric or `-`, else `_`.
pub open spec fn safe_char(c: char) -> char {
    if alphanumeric(c) || c == '-' {
        c
    } else {
        '_'
    }
}

/// The number of bytes of `c` in UTF-8.
pub open spec fn utf8_len(c: char) -> nat {
    if (c as u32) < 0x80 {
        1
    } else if (c as u32) < 0x800 {
        2
    } else if (c as u32) < 0x10000 {
        3
    } else {
        4
    }
}

/// The number of bytes of `s` in UTF-8.
pub open spec fn utf8_size(s: Seq<char>) -> nat
    decreases s.len(),
{
    if s.len() == 0 {
        0
    } else {
        utf8_size(s.drop_last()) + utf8_len(s.last())
    }
}

/// The longest prefix of `s` whose UTF-8 form fits in `limit` bytes.
pub open spec fn fitting_prefix(s: Seq<char>, limit: nat) -> Seq<char>
    decreases s.len(),
{
    if utf8_size(s) <= limit {
        s
    } else {
        fitting_prefix(s.drop_last(), limit)
    }
}

/// `n` as 16 lower-case hexadecimal digits, zero-padded.
pub open spec fn hex16(n: u64) -> Seq<char> {
    Seq::new(16, |i: int| hex_char((n as int / pow(16, (15 - i) as nat)) % 16))
}

/// Relies on std's `LowerHex` for `u64` with width 16 and zero padding.
#[verifier::external_body]
fn hex16_text(n: u64) -> (r: String)
    ensures
        r@ == hex16(n),
{
    format!("{:016x}", n)
}

/// The file name of a model: its reference made safe, cut to 50 bytes, then
/// the hash of the reference and the `.gguf` extension.
pub open spec fn model_file_name(reference: Seq<char>) -> Seq<char> {
    fitting_prefix(reference.map_values(|c: char| safe_char(c)), 50) + "_"@ + hex16(
        default_hash_of(reference),
    ) + ".gguf"@
}

/// `name` inside the directory `base`.
pub open spec fn joined_path(base: Seq<char>, name: Seq<char>) -> Seq<char> {
    if base.len() == 0 {
        name
    } else if base.last() == '/' {
        base + name
    } else {
        base + "/"@ + name
    }
}

/// The number of bytes of `c` in UTF-8.
fn char_utf8_len(c: char) -> (r: usize)
    ensures
        r == utf8_len(c),
{
    let v = c as u32;
    if v < 0x80 {
        1
    } else if v < 0x800 {
        2
    } else if v < 0x10000 {
        3
    } else {
        4
    }
}

proof fn lemma_utf8_size_grows(s: Seq<char>, n: int)
    requires
        0 <= n <= s.len(),
    ensures
        utf8_size(s.subrange(0, n)) <= utf8_size(s),
    decreases s.len() - n,
{
    if n < s.len() {
        lemma_utf8_size_grows(s, n + 1);
        assert(s.subrange(0, n + 1).drop_last() =~= s.subrange(0, n));
    } else {
        assert(s.subrange(0, n) =~= s);
    }
}

/// Once a prefix is too large, the fitting prefix lies within a shorter one.
proof fn lemma_fitting_prefix(s: Seq<char>, n: int, limit: nat)
    requires
        0 <= n <= s.len(),
        forall|m: int| n < m <= s.len() ==> utf8_size(#[trigger] s.subrange(0, m)) > limit,
    ensures
        fitting_prefix(s, limit) == fitting_prefix(s.subrange(0, n), limit),
    decreases s.len() - n,
{
    if n < s.len() {
        lemma_fitting_prefix(s, n + 1, limit);
        let p = s.subrange(0, n + 1);
        assert(p.drop_last() =~= s.subrange(0, n));
        assert(utf8_size(p) > limit);
    } else {
        assert(s.subrange(0, n) =~= s);
    }
}

impl OciStore {
    /// The base directory.
    pub closed spec fn base_path(&self) -> Seq<char> {
        self.base_path@
    }

    /// A store under `base_path`.
    pub fn new(base_path: String) -> (r: Self)
        ensures
            r.base_path() == base_path@,
    {
        OciStore { base_path }
    }

    /// The base directory.
    pub fn base(&self) -> (r: &String)
        ensures
            r@ == self.base_path(),
    {
        &self.base_path
    }

    /// Pulling from a registry is not available: it always fails with
    /// `ModelNotFound`.
    pub fn pull(&self, reference: &str) -> (r: DmrletResult<String>)
        ensures
            r matches Err(DmrletError::ModelNotFound(m)) && m@
                == "OCI pulling not yet implemented for: "@ + reference@,
    {
        Err(DmrletError::ModelNotFound(String::from_str("OCI pulling not yet implemented for: ").concat(reference)))
    }

    /// The local path of a model.
    pub fn model_path(&self, reference: &str) -> (r: String)
        ensures
            r@ == joined_path(self.base_path(), model_file_name(reference@)),
    {
        let hash = default_hash(reference);
        let n = reference.unicode_len();
        let ghost safe = reference@.map_values(|c: char| safe_char(c));
        let mut name = String::new();
        let mut bytes: usize = 0;
        let mut i: usize = 0;
        let mut fits = true;
        assert(safe.subrange(0, 0) =~= Seq::<char>::empty());
        while i < n && fits
            invariant
                i <= n == reference@.len() == safe.len(),
                safe == reference@.map_values(|c: char| safe_char(c)),
                name@ == safe.subrange(0, i as int),
                bytes == utf8_size(name@),
                bytes <= 50,
                !fits ==> i < n && utf8_size(safe.subrange(0, i as int + 1)) > 50,
            decreases n - i + if fits { 1int } else { 0int },
        {
            let c = reference.get_char(i);
            let s = if is_alphanumeric(c) || c == '-' {
                c
            } else {
                '_'
            };
            let w = char_utf8_len(s);
            assert(safe.subrange(0, i as int + 1).drop_last() =~= safe.subrange(0, i as int));
            if bytes + w <= 50 {
                name = name.concat(char_str(s).as_str());
                bytes = bytes + w;
                assert(name@ =~= safe.subrange(0, i as int + 1));
                i = i + 1;
            } else {
                fits = false;
            }
        }
        proof {
            if fits {
                assert(safe.subrange(0, i as int) =~= safe);
            } else {
                assert forall|m: int| i < m <= n implies utf8_size(#[trigger] safe.subrange(0, m)) > 50 by {
                    lemma_utf8_size_grows(safe.subrange(0, m), i + 1);
                    assert(safe.subrange(0, m).subrange(0, i + 1) =~= safe.subrange(0, i + 1));
                }
                lemma_fitting_prefix(safe, i as int, 50);
            }
        }
        let file = name.concat("_").concat(hex16_text(hash).as_str()).concat(".gguf");
        let base_len = self.base_path.as_str().unicode_len();
        if base_len == 0 {
            file
        } else if self.base_path.as_str().get_char(base_len - 1) == '/' {
            self.base_path.clone().concat(file.as_str())
        } else {
            self.base_path.clone().concat("/").concat(file.as_str())
        }
    }
}

/// Relies on std's `char::to_string`: the text of the one character.
#[verifier::external_body]
fn char_str(c: char) -> (r: String)
    ensures
        r@ == seq![c],
{
    c.to_string()
}

} // verus!
