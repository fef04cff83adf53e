//! `/complete`: strips the model's thinking from its output and frames the
//! reply within Discord's message limit.

use vstd::prelude::*;

use crate::text::clip;
use crate::text::clipped;
use crate::text::chars_of;
use crate::text::is_byte_boundary;
use crate::text::occurs_at;
use crate::text::seq_contains;
use crate::text::owned;
use crate::text::push_str;
use crate::text::trim;
use crate::text::trimmed;
use crate::text::utf8_len;

verus! {

#[verifier::external_type_specification]
#[verifier::external_body]
pub struct ExRegex(regex::Regex);

/// What `regex::Regex::new` decides for `pattern`: whether it builds a
/// regex (a valid pattern within the default size limit).
pub uninterp spec fn regex_builds(pattern: Seq<char>) -> bool;

/// What `regex::Regex::replace_all` returns for the regex built from
/// `pattern`, the haystack and the replacement.
pub uninterp spec fn regex_replace_all(
    pattern: Seq<char>,
    haystack: Seq<char>,
    replacement: Seq<char>,
) -> Seq<char>;

/// A regex together with the pattern it was built from. Only
/// `compile_pattern` builds one, so `regex` is always the regex that
/// `regex::Regex::new` built from `source`.
pub struct CompiledPattern {
    source: String,
    regex: regex::Regex,
}

impl CompiledPattern {
    /// The pattern the regex was built from.
    pub closed spec fn source(&self) -> Seq<char> {
        self.source@
    }
}

/// Calls `regex::Regex::new` on `source`; `None` where it returns an error.
/// Whether it succeeds is named `regex_builds(source)`; the kept pattern is
/// `source`.
#[verifier::external_body]
fn compile_pattern(source: &str) -> (r: Option<CompiledPattern>)
    ensures
        r is Some <==> regex_builds(source@),
        r matches Some(p) ==> p.source() == source@,
{
    match regex::Regex::new(source) {
        Ok(regex) => Some(CompiledPattern { source: source.to_string(), regex }),
        Err(_) => None,
    }
}

/// Calls `regex::Regex::replace_all` with `pattern`'s regex; the result is
/// named `regex_replace_all(pattern, haystack, replacement)`.
///
/// For the thinking-block pattern `(?s)<think>.*?(</think>|$)` and an empty
/// replacement it also states the result, as the regex documentation
/// defines it: a search finds the leftmost match, which starts at the first
/// `<think>` (a match exists there, since `$` ends any run of `.*?`); the
/// lazy `.*?` with `(?s)` takes any characters up to the first place where
/// `</think>` follows or the text ends; `replace_all` replaces that match
/// and searches on after it. This is `without_thinking`.
#[verifier::external_body]
fn replace_all_matches(pattern: &CompiledPattern, haystack: &str, replacement: &str) -> (r: String)
    ensures
        r@ == regex_replace_all(pattern.source(), haystack@, replacement@),
        pattern.source() == "(?s)<think>.*?(</think>|$)"@ && replacement@ == ""@ ==> r@
            == without_thinking(haystack@),
{
    pattern.regex.replace_all(haystack, replacement).into_owned()
}

/// The pattern of a thinking block: `<think>` up to the next `</think>`, or
/// to the end of the text where it is not closed.
pub open spec fn think_pattern() -> Seq<char> {
    "(?s)<think>.*?(</think>|$)"@
}

/// The tag that opens a thinking block.
pub open spec fn think_open() -> Seq<char> {
    "<think>"@
}

/// The tag that closes a thinking block.
pub open spec fn think_close() -> Seq<char> {
    "</think>"@
}

/// The first index at or after `k` where `p` occurs in `s`, or -1.
pub open spec fn find_from(s: Seq<char>, p: Seq<char>, k: int) -> int
    decreases s.len() + 1 - k,
{
    if k < 0 || k + p.len() > s.len() {
        -1
    } else if occurs_at(s, p, k) {
        k
    } else {
        find_from(s, p, k + 1)
    }
}

/// `s` with its thinking blocks removed, as the regex `think_pattern()`
/// removes them with `replace_all` and an empty replacement: from the first
/// `<think>` up to and including the first `</think>` after it, or to the
/// end where none follows; then the same on the rest.
pub open spec fn without_thinking(s: Seq<char>) -> Seq<char>
    decreases s.len(),
{
    let i = find_from(s, think_open(), 0);
    if i < 0 {
        s
    } else {
        let rest = s.skip(i + think_open().len());
        let j = find_from(rest, think_close(), 0);
        if j < 0 {
            s.take(i)
        } else {
            let t = rest.skip(j + think_close().len());
            if t.len() < s.len() {
                s.take(i) + without_thinking(t)
            } else {
                s.take(i)
            }
        }
    }
}

/// Model output without thinking blocks and surrounding white space.
pub open spec fn stripped(output: Seq<char>) -> Seq<char> {
    trimmed(without_thinking(output))
}

/// Builds the regex that matches thinking blocks.
pub fn thinking_filter() -> (r: Option<CompiledPattern>)
    ensures
        r is Some <==> regex_builds(think_pattern()),
        r matches Some(p) ==> p.source() == think_pattern(),
{
    compile_pattern("(?s)<think>.*?(</think>|$)")
}

/// Strips thinking tags from model output with the thinking-block regex.
pub fn strip_thinking_with(filter: &CompiledPattern, output: &str) -> (r: String)
    requires
        filter.source() == think_pattern(),
    ensures
        r@ == stripped(output@),
{
    let replaced = replace_all_matches(filter, output, "");
    trim(&chars_of(replaced.as_str()))
}

/// Strips thinking tags from model output; `None` only where the
/// thinking-block pattern does not build.
pub fn strip_thinking(output: &str) -> (r: Option<String>)
    ensures
        r is Some <==> regex_builds(think_pattern()),
        r matches Some(s) ==> s@ == stripped(output@),
{
    match thinking_filter() {
        Some(filter) => Some(strip_thinking_with(&filter, output)),
        None => None,
    }
}

/// Where `p` occurs nowhere at or after `k`, the search finds nothing.
proof fn lemma_find_none(s: Seq<char>, p: Seq<char>, k: int)
    requires
        0 <= k,
        forall|q: int| k <= q ==> !occurs_at(s, p, q),
    ensures
        find_from(s, p, k) == -1,
    decreases s.len() + 1 - k,
{
    if k + p.len() <= s.len() {
        lemma_find_none(s, p, k + 1);
    }
}

/// The search finds the first occurrence at or after `k`.
proof fn lemma_find_first(s: Seq<char>, p: Seq<char>, k: int, q0: int)
    requires
        0 <= k <= q0,
        occurs_at(s, p, q0),
        forall|q: int| k <= q < q0 ==> !occurs_at(s, p, q),
    ensures
        find_from(s, p, k) == q0,
    decreases q0 - k,
{
    if k < q0 {
        lemma_find_first(s, p, k + 1, q0);
    }
}

/// Text without `<think>` has no thinking block to remove.
pub proof fn law_no_thinking_kept(s: Seq<char>)
    requires
        !seq_contains(s, think_open()),
    ensures
        without_thinking(s) == s,
        stripped(s) == trimmed(s),
{
    lemma_find_none(s, think_open(), 0);
}

/// No character of `tag` after the first is `<`.
proof fn lemma_tags()
    ensures
        think_open().len() == 7,
        think_close().len() == 8,
        think_open()[0] == '<',
        think_close()[0] == '<',
        forall|i: int| 1 <= i < 7 ==> think_open()[i] != '<',
        forall|i: int| 1 <= i < 8 ==> think_close()[i] != '<',
{
    reveal_strlit("<think>");
    reveal_strlit("</think>");
}

/// In `a + tag + rest`, where `a` holds no `tag`, the first `tag` is the
/// one right after `a`.
proof fn lemma_first_tag(a: Seq<char>, tag: Seq<char>, rest: Seq<char>)
    requires
        tag.len() > 0,
        tag[0] == '<',
        forall|i: int| 1 <= i < tag.len() ==> tag[i] != '<',
        !seq_contains(a, tag),
    ensures
        find_from(a + tag + rest, tag, 0) == a.len(),
{
    let s = a + tag + rest;
    assert(s.subrange(a.len() as int, (a.len() + tag.len()) as int) =~= tag);
    assert(occurs_at(s, tag, a.len() as int));
    assert forall|q: int| 0 <= q < a.len() implies !occurs_at(s, tag, q) by {
        if occurs_at(s, tag, q) {
            if q + tag.len() <= a.len() {
                assert(a.subrange(q, q + tag.len()) =~= s.subrange(q, q + tag.len()));
                assert(occurs_at(a, tag, q));
            } else {
                let d = a.len() - q;
                assert(s.subrange(q, q + tag.len())[d] == s[a.len() as int]);
                assert(s[a.len() as int] == tag[0]);
                assert(tag[d] != '<');
            }
        }
    }
    lemma_find_first(s, tag, 0, a.len() as int);
}

/// A closed thinking block is removed with its tags, and the text around it
/// is kept: for `a + "<think>" + x + "</think>" + b` where `a` and `b` hold
/// no `<think>` and `x` holds no `</think>`, the stripped output is the
/// trimmed `a + b`.
pub proof fn law_closed_thinking_removed(a: Seq<char>, x: Seq<char>, b: Seq<char>)
    requires
        !seq_contains(a, think_open()),
        !seq_contains(x, think_close()),
        !seq_contains(b, think_open()),
    ensures
        without_thinking(a + think_open() + x + think_close() + b) == a + b,
        stripped(a + think_open() + x + think_close() + b) == trimmed(a + b),
{
    lemma_tags();
    let s = a + think_open() + x + think_close() + b;
    lemma_first_tag(a, think_open(), x + think_close() + b);
    assert(a + think_open() + (x + think_close() + b) =~= s);
    let rest = s.skip(a.len() + 7int);
    assert(rest =~= x + think_close() + b);
    lemma_first_tag(x, think_close(), b);
    let t = rest.skip(x.len() + 8int);
    assert(t =~= b);
    law_no_thinking_kept(b);
    assert(s.take(a.len() as int) =~= a);
}

/// A thinking block left open runs to the end of the output: for
/// `a + "<think>" + x` where `a` holds no `<think>` and `x` holds no
/// `</think>`, the stripped output is the trimmed `a`.
pub proof fn law_open_thinking_removed(a: Seq<char>, x: Seq<char>)
    requires
        !seq_contains(a, think_open()),
        !seq_contains(x, think_close()),
    ensures
        without_thinking(a + think_open() + x) == a,
        stripped(a + think_open() + x) == trimmed(a),
{
    lemma_tags();
    let s = a + think_open() + x;
    lemma_first_tag(a, think_open(), x);
    let rest = s.skip(a.len() + 7int);
    assert(rest =~= x);
    lemma_find_none(x, think_close(), 0);
    assert(s.take(a.len() as int) =~= a);
}

/// Suffix that marks a reply cut to Discord's limit.
pub open spec fn truncated_suffix() -> Seq<char> {
    "...\n\n*[truncated]*"@
}

/// A reply cut to 1900 bytes, with the suffix, where it is over 1950 bytes.
pub open spec fn discord_text(message: Seq<char>) -> Seq<char> {
    clipped(message, 1950, 1900, truncated_suffix())
}

/// The prompt as shown above the response: its first 100 bytes and "..."
/// where it is longer.
pub open spec fn preview_text(prompt: Seq<char>) -> Seq<char> {
    clipped(prompt, 100, 100, "..."@)
}

/// The reply to `/complete` before it is cut to Discord's limit.
pub open spec fn complete_text(preview: Seq<char>, response: Seq<char>) -> Seq<char> {
    "**Prompt:** "@ + preview + "\n\n**Response:**\n"@ + response
}

/// Shortens a prompt for display.
pub fn prompt_preview(prompt: String) -> (r: String)
    requires
        utf8_len(prompt@) > 100 ==> is_byte_boundary(prompt@, 100),
    ensures
        r@ == preview_text(prompt@),
{
    clip(prompt, 100, 100, "...")
}

/// Frames the prompt preview and the response of `/complete`.
pub fn complete_message(preview: &str, response: &str) -> (r: String)
    ensures
        r@ == complete_text(preview@, response@),
{
    let mut m = owned("**Prompt:** ");
    push_str(&mut m, preview);
    push_str(&mut m, "\n\n**Response:**\n");
    push_str(&mut m, response);
    m
}

/// Cuts a reply to Discord's limit: to 1900 bytes and a suffix where it is
/// over 1950 bytes.
pub fn discord_clip(message: String) -> (r: String)
    requires
        utf8_len(message@) > 1950 ==> is_byte_boundary(message@, 1900),
    ensures
        r@ == discord_text(message@),
{
    clip(message, 1950, 1900, "...\n\n*[truncated]*")
}

/// Every reply cut by `discord_clip` stays within 1950 bytes, below
/// Discord's limit of 2000.
pub proof fn law_discord_reply_fits(message: Seq<char>)
    requires
        utf8_len(message) > 1950 ==> is_byte_boundary(message, 1900),
    ensures
        utf8_len(discord_text(message)) <= 1950,
{
    reveal_strlit("...\n\n*[truncated]*");
    crate::text::lemma_ascii_utf8_len(truncated_suffix());
    crate::text::law_clipped_fits(message, 1950, 1900, truncated_suffix());
}

/// A prompt preview takes at most 103 bytes.
pub proof fn law_preview_fits(prompt: Seq<char>)
    requires
        utf8_len(prompt) > 100 ==> is_byte_boundary(prompt, 100),
    ensures
        utf8_len(preview_text(prompt)) <= 103,
{
    reveal_strlit("...");
    crate::text::lemma_ascii_utf8_len("..."@);
    if utf8_len(prompt) > 100 {
        let k = choose|k: int| 0 <= k <= prompt.len() && utf8_len(#[trigger] prompt.take(k)) == 100;
        crate::text::lemma_byte_prefix(prompt, 100, k);
        crate::text::lemma_utf8_len_concat(crate::text::byte_prefix(prompt, 100), "..."@);
    }
}

} // verus!
