//! The current SPW prompt template and the rule by which a fetched template
//! replaces it: only when its SHA-256 hash differs.

use sha2::Digest;
use vstd::prelude::*;
use vstd::utf8::encode_utf8;

use crate::text::digit;
use crate::text::digit_char;
use crate::text::push_char;

verus! {

/// What `sha2::Sha256::digest` returns for the bytes `data`: their SHA-256
/// hash.
pub uninterp spec fn sha256_of(data: Seq<u8>) -> Seq<u8>;

/// Calls `sha2::Sha256::digest` (through `sha2::Digest`) on `data` and
/// returns the 32-byte hash. Its value is named `sha256_of(data)`.
#[verifier::external_body]
fn sha256_digest(data: &[u8]) -> (h: [u8; 32])
    ensures
        h@ == sha256_of(data@),
{
    sha2::Sha256::digest(data).into()
}

/// The hash the watcher keeps for a template: SHA-256 of its UTF-8 bytes.
pub open spec fn template_hash(template: Seq<char>) -> Seq<u8> {
    sha256_of(encode_utf8(template))
}

/// The template kept after offering `new` to a state holding `current`.
pub open spec fn kept_template(current: Seq<char>, new: Seq<char>) -> Seq<char> {
    if template_hash(new) != template_hash(current) {
        new
    } else {
        current
    }
}

/// Hashes a template.
pub fn hash_template(template: &str) -> (h: [u8; 32])
    ensures
        h@ == template_hash(template@),
        h@ == sha256_of(encode_utf8(template@)),
{
    sha256_digest(template.as_bytes())
}

/// Whether two hashes are equal.
fn same_hash(a: &[u8; 32], b: &[u8; 32]) -> (r: bool)
    ensures
        r == (a@ == b@),
{
    let mut i: usize = 0;
    while i < 32
        invariant
            i <= 32,
            a@.len() == 32,
            b@.len() == 32,
            forall|j: int| 0 <= j < i ==> a@[j] == b@[j],
        decreases 32 - i,
    {
        if a[i] != b[i] {
            return false;
        }
        i = i + 1;
    }
    assert(a@ =~= b@);
    true
}

/// Shared state for the current prompt template.
#[derive(Debug)]
pub struct PromptState {
    template: String,
    hash: [u8; 32],
}

impl PromptState {
    /// The current template.
    pub closed spec fn current(&self) -> Seq<char> {
        self.template@
    }

    /// The kept hash is the hash of the current template.
    pub closed spec fn well_formed(&self) -> bool {
        self.hash@ == template_hash(self.template@)
    }

    /// Creates a prompt state holding `template`.
    pub fn new(template: String) -> (s: Self)
        ensures
            s.well_formed(),
            s.current() == template@,
    {
        let hash = hash_template(template.as_str());
        PromptState { template, hash }
    }

    /// Gets the current prompt template.
    pub fn template(&self) -> (t: String)
        ensures
            t@ == self.current(),
    {
        self.template.clone()
    }

    /// The hash kept for the current template.
    pub fn hash(&self) -> (h: [u8; 32])
        requires
            self.well_formed(),
        ensures
            h@ == template_hash(self.current()),
    {
        self.hash
    }

    /// Updates the template if the hash has changed. Returns true if updated.
    pub fn update_if_changed(&mut self, new_template: String) -> (updated: bool)
        requires
            old(self).well_formed(),
        ensures
            final(self).well_formed(),
            updated == (template_hash(new_template@) != template_hash(old(self).current())),
            final(self).current() == kept_template(old(self).current(), new_template@),
            updated == (sha256_of(encode_utf8(new_template@)) != sha256_of(
                encode_utf8(old(self).current()),
            )),
            updated ==> final(self).current() == new_template@,
            !updated ==> final(self).current() == old(self).current(),
    {
        let new_hash = hash_template(new_template.as_str());
        if !same_hash(&self.hash, &new_hash) {
            self.template = new_template;
            self.hash = new_hash;
            true
        } else {
            false
        }
    }
}

/// Lower-case hexadecimal notation of `bytes`, two digits per byte.
pub open spec fn hex_text(bytes: Seq<u8>) -> Seq<char>
    decreases bytes.len(),
{
    if bytes.len() == 0 {
        Seq::empty()
    } else {
        hex_text(bytes.drop_last()) + seq![
            digit_char((bytes.last() / 16) as int),
            digit_char((bytes.last() % 16) as int),
        ]
    }
}

/// Simple hex encoding for logging hashes.
pub fn encode(bytes: [u8; 32]) -> (s: String)
    ensures
        s@ == hex_text(bytes@),
{
    let mut s = String::new();
    let mut i: usize = 0;
    assert(bytes@.take(0) =~= Seq::<u8>::empty());
    while i < 32
        invariant
            i <= 32,
            bytes@.len() == 32,
            s@ == hex_text(bytes@.take(i as int)),
        decreases 32 - i,
    {
        let b = bytes[i];
        push_char(&mut s, digit((b / 16) as u64));
        push_char(&mut s, digit((b % 16) as u64));
        assert(bytes@.take(i + 1).drop_last() =~= bytes@.take(i as int));
        i = i + 1;
        assert(s@ =~= hex_text(bytes@.take(i as int)));
    }
    assert(bytes@.take(32) =~= bytes@);
    s
}

/// Offering a template twice keeps the same template as offering it once,
/// and the second offer reports no change: the kept hash is the offered
/// template's hash.
pub proof fn law_update_idempotent(current: Seq<char>, new: Seq<char>)
    ensures
        template_hash(kept_template(current, new)) == template_hash(new),
        kept_template(kept_template(current, new), new) == kept_template(current, new),
{
}

/// The hash covers the whole template: it is SHA-256 of all its UTF-8
/// bytes, and different templates have different bytes, so a fetched
/// template that differs anywhere is offered as changed unless SHA-256
/// collides on the two byte strings.
pub proof fn law_hash_covers_whole_template(current: Seq<char>, new: Seq<char>)
    ensures
        template_hash(new) == sha256_of(encode_utf8(new)),
        new != current ==> encode_utf8(new) != encode_utf8(current),
        sha256_of(encode_utf8(new)) != sha256_of(encode_utf8(current)) ==> kept_template(
            current,
            new,
        ) == new,
        sha256_of(encode_utf8(new)) == sha256_of(encode_utf8(current)) ==> kept_template(
            current,
            new,
        ) == current,
{
    vstd::utf8::encode_utf8_decode_utf8(new);
    vstd::utf8::encode_utf8_decode_utf8(current);
}

/// A template whose hash differs from the current one replaces it.
pub proof fn law_changed_template_is_kept(current: Seq<char>, new: Seq<char>)
    requires
        template_hash(new) != template_hash(current),
    ensures
        kept_template(current, new) == new,
{
}

/// The value of a lower-case hexadecimal digit.
pub open spec fn hex_digit_value(c: char) -> int {
    if '0' <= c <= '9' {
        c as int - '0' as int
    } else {
        c as int - 'a' as int + 10
    }
}

/// A lower-case hexadecimal digit.
pub open spec fn is_hex_digit(c: char) -> bool {
    ('0' <= c <= '9') || ('a' <= c <= 'f')
}

/// Characters `2i` and `2i + 1` of the hex text are the high and low digits
/// of byte `i`: every character is a hex digit, and the two digits read back
/// as the byte.
pub proof fn law_hex_round_trip(bytes: Seq<u8>, i: int)
    requires
        0 <= i < bytes.len(),
    ensures
        hex_text(bytes).len() == 2 * bytes.len(),
        hex_text(bytes)[2 * i] == digit_char((bytes[i] / 16) as int),
        hex_text(bytes)[2 * i + 1] == digit_char((bytes[i] % 16) as int),
        is_hex_digit(hex_text(bytes)[2 * i]),
        is_hex_digit(hex_text(bytes)[2 * i + 1]),
        hex_digit_value(hex_text(bytes)[2 * i]) * 16 + hex_digit_value(hex_text(bytes)[2 * i + 1])
            == bytes[i],
    decreases bytes.len(),
{
    law_hex_length(bytes);
    let prev = bytes.drop_last();
    law_hex_length(prev);
    if i < bytes.len() - 1 {
        law_hex_round_trip(prev, i);
        assert(hex_text(bytes)[2 * i] == hex_text(prev)[2 * i]);
        assert(hex_text(bytes)[2 * i + 1] == hex_text(prev)[2 * i + 1]);
    }
    let b = bytes[i];
    assert(0 <= b / 16 < 16);
    assert(0 <= b % 16 < 16);
    assert(b == (b / 16) * 16 + b % 16);
}

/// The hex text of a hash has two characters per byte.
pub proof fn law_hex_length(bytes: Seq<u8>)
    ensures
        hex_text(bytes).len() == 2 * bytes.len(),
    decreases bytes.len(),
{
    if bytes.len() > 0 {
        law_hex_length(bytes.drop_last());
    }
}

} // verus!
