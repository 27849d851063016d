//! What every pipeline stage sends to a model, and the clean-up applied to what
//! comes back before it is read as JSON.
use crate::error::{error_text, Error};
use crate::text::{chars_of, contains, is_ws, lemma_contains_concat, owned, trim, trim_bounds, trim_end, trim_start};
use vstd::prelude::*;

pub mod mock;
pub mod openai;

verus! {

/// A single completion request. Every stage in the pipeline speaks in these terms,
/// which is what makes the model backend swappable.
#[derive(Debug)]
pub struct Prompt {
    /// Which pipeline stage produced this prompt. Used for error messages and mocking.
    pub stage: &'static str,
    pub system: String,
    pub user: String,
    /// Ask the provider to constrain output to a JSON object where supported.
    pub json: bool,
}

impl Clone for Prompt {
    fn clone(&self) -> (r: Self)
        ensures
            r == *self,
    {
        Prompt { stage: self.stage, system: self.system.clone(), user: self.user.clone(), json: self.json }
    }
}

/// `s` without the prefix `p`, when it has it.
pub open spec fn strip_prefix_or_keep(s: Seq<char>, p: Seq<char>) -> Seq<char> {
    if p.len() <= s.len() && s.subrange(0, p.len() as int) == p {
        s.subrange(p.len() as int, s.len() as int)
    } else {
        s
    }
}

/// `s` without the suffix `p`, when it has it.
pub open spec fn strip_suffix_or_keep(s: Seq<char>, p: Seq<char>) -> Seq<char> {
    if p.len() <= s.len() && s.subrange(s.len() - p.len(), s.len() as int) == p {
        s.subrange(0, s.len() - p.len())
    } else {
        s
    }
}

pub open spec fn is_line_break(c: char) -> bool {
    c == '\r' || c == '\n'
}

/// `s` without its leading `\r` and `\n` characters.
pub open spec fn trim_start_line_breaks(s: Seq<char>) -> Seq<char>
    decreases s.len(),
{
    if s.len() > 0 && is_line_break(s[0]) {
        trim_start_line_breaks(s.drop_first())
    } else {
        s
    }
}

pub open spec fn fence() -> Seq<char> {
    seq!['`', '`', '`']
}

pub open spec fn json_tag() -> Seq<char> {
    seq!['j', 's', 'o', 'n']
}

/// A model reply with a surrounding Markdown code fence (and its `json` tag) removed,
/// and surrounding whitespace trimmed.
pub open spec fn unfenced(raw: Seq<char>) -> Seq<char> {
    let t = trim(raw);
    if fence().len() <= t.len() && t.subrange(0, 3) == fence() {
        let rest = strip_prefix_or_keep(t.subrange(3, t.len() as int), json_tag());
        trim(strip_suffix_or_keep(trim_start_line_breaks(rest), fence()))
    } else {
        t
    }
}

/// `v[i..i + p.len()] == p`.
fn has_at(v: &Vec<char>, i: usize, p: &Vec<char>) -> (r: bool)
    requires
        i <= v@.len(),
    ensures
        r == (p@.len() <= v@.len() - i && v@.subrange(i as int, i + p@.len()) == p@),
{
    if p.len() > v.len() - i {
        return false;
    }
    let mut k: usize = 0;
    while k < p.len()
        invariant
            i <= v@.len(),
            k <= p@.len() <= v@.len() - i,
            forall|j: int| 0 <= j < k ==> v@[i + j] == p@[j],
        decreases p@.len() - k,
    {
        assert(v@.len() == v.len());
        if v[i + k] != p[k] {
            assert(v@.subrange(i as int, i + p@.len())[k as int] != p@[k as int]);
            return false;
        }
        k = k + 1;
    }
    assert(v@.subrange(i as int, i + p@.len()) =~= p@);
    true
}

/// Whether `v[lo..hi]` starts with a fence.
fn opens_with_fence(v: &Vec<char>, fence_chars: &Vec<char>, lo: usize, hi: usize) -> (r: bool)
    requires
        lo <= hi <= v@.len(),
        fence_chars@ == fence(),
    ensures
        r == (fence().len() <= hi - lo && v@.subrange(lo as int, hi as int).subrange(0, 3) == fence()),
{
    let ghost t = v@.subrange(lo as int, hi as int);
    if hi - lo < 3 {
        return false;
    }
    let r = has_at(v, lo, fence_chars);
    assert(t.subrange(0, 3) =~= v@.subrange(lo as int, lo + 3));
    r
}

/// The start of `strip_prefix_or_keep(v[lo..hi], "json")` inside `v`.
fn skip_json_tag(v: &Vec<char>, json_chars: &Vec<char>, lo: usize, hi: usize) -> (r: usize)
    requires
        lo <= hi <= v@.len(),
        json_chars@ == json_tag(),
    ensures
        lo <= r <= hi,
        v@.subrange(r as int, hi as int) == strip_prefix_or_keep(v@.subrange(lo as int, hi as int), json_tag()),
{
    let ghost t = v@.subrange(lo as int, hi as int);
    if hi - lo >= 4 && has_at(v, lo, json_chars) {
        assert(t.subrange(0, 4) =~= v@.subrange(lo as int, lo + 4));
        assert(v@.subrange(lo + 4, hi as int) =~= t.subrange(4, t.len() as int));
        lo + 4
    } else {
        proof {
            if json_tag().len() <= t.len() && t.subrange(0, 4) == json_tag() {
                assert(t.subrange(0, 4) =~= v@.subrange(lo as int, lo + 4));
            }
        }
        lo
    }
}

/// The start of `trim_start_line_breaks(v[lo..hi])` inside `v`.
fn skip_line_breaks(v: &Vec<char>, lo: usize, hi: usize) -> (r: usize)
    requires
        lo <= hi <= v@.len(),
    ensures
        lo <= r <= hi,
        v@.subrange(r as int, hi as int) == trim_start_line_breaks(v@.subrange(lo as int, hi as int)),
{
    let ghost t = v@.subrange(lo as int, hi as int);
    let mut i = lo;
    while i < hi && (v[i] == '\r' || v[i] == '\n')
        invariant
            lo <= i <= hi <= v@.len(),
            trim_start_line_breaks(t) == trim_start_line_breaks(v@.subrange(i as int, hi as int)),
        decreases hi - i,
    {
        assert(v@.subrange(i as int, hi as int).drop_first() =~= v@.subrange(i + 1, hi as int));
        i = i + 1;
    }
    let ghost u = v@.subrange(i as int, hi as int);
    proof {
        if u.len() > 0 {
            assert(u[0] == v@[i as int]);
        }
    }
    i
}

/// The end of `strip_suffix_or_keep(v[lo..hi], fence)` inside `v`.
fn drop_closing_fence(v: &Vec<char>, fence_chars: &Vec<char>, lo: usize, hi: usize) -> (r: usize)
    requires
        lo <= hi <= v@.len(),
        fence_chars@ == fence(),
    ensures
        lo <= r <= hi,
        v@.subrange(lo as int, r as int) == strip_suffix_or_keep(v@.subrange(lo as int, hi as int), fence()),
{
    let ghost u = v@.subrange(lo as int, hi as int);
    if hi - lo >= 3 && has_at(v, hi - 3, fence_chars) {
        assert(u.subrange(u.len() - 3, u.len() as int) =~= v@.subrange(hi - 3, hi as int));
        assert(u.subrange(0, u.len() - 3) =~= v@.subrange(lo as int, hi - 3));
        hi - 3
    } else {
        proof {
            if fence().len() <= u.len() && u.subrange(u.len() - 3, u.len() as int) == fence() {
                assert(u.subrange(u.len() - 3, u.len() as int) =~= v@.subrange(hi - 3, hi as int));
            }
            assert(v@.subrange(lo as int, hi as int) == u);
        }
        hi
    }
}

/// Models like to wrap JSON in ``` fences even when told not to. Strip them.
pub fn strip_fences(raw: &str) -> (r: &str)
    ensures
        r@ == unfenced(raw@),
        exists|lo: int, hi: int| 0 <= lo <= hi <= raw@.len() && r@ == raw@.subrange(lo, hi),
{
    let v = chars_of(raw);
    let fence_chars = chars_of("```");
    let json_chars = chars_of("json");
    proof {
        reveal_strlit("```");
        reveal_strlit("json");
        assert(fence_chars@ =~= fence());
        assert(json_chars@ =~= json_tag());
        assert(v@.subrange(0, v@.len() as int) =~= raw@);
    }
    let (a, b) = trim_bounds(&v, 0, v.len());
    if !opens_with_fence(&v, &fence_chars, a, b) {
        let r = raw.substring_char(a, b);
        assert(r@ == raw@.subrange(a as int, b as int));
        return r;
    }
    let ghost t = v@.subrange(a as int, b as int);
    assert(v@.subrange(a + 3, b as int) =~= t.subrange(3, t.len() as int));
    let lo = skip_json_tag(&v, &json_chars, a + 3, b);
    let lo = skip_line_breaks(&v, lo, b);
    let hi = drop_closing_fence(&v, &fence_chars, lo, b);
    let (c, d) = trim_bounds(&v, lo, hi);
    let r = raw.substring_char(c, d);
    assert(r@ == raw@.subrange(c as int, d as int));
    r
}

/// The error for a reply that could not be read as the JSON a stage expects.
pub fn malformed_reply(stage: &'static str, raw: &str, source: String) -> (r: Error)
    ensures
        r matches Error::BadModelJson { stage: s, raw: rr, source: src } && s == stage && rr@
            == raw@ && src == source,
{
    Error::BadModelJson { stage, raw: owned(raw), source }
}

proof fn lemma_trim_start_line_breaks_concat(x: Seq<char>, z: Seq<char>)
    ensures
        trim_start_line_breaks(x).len() > 0 ==> trim_start_line_breaks(x + z)
            == trim_start_line_breaks(x) + z,
        trim_start_line_breaks(x).len() == 0 ==> trim_start_line_breaks(x + z)
            == trim_start_line_breaks(z),
    decreases x.len(),
{
    if x.len() == 0 {
        assert(x + z =~= z);
    } else if is_line_break(x[0]) {
        lemma_trim_start_line_breaks_concat(x.drop_first(), z);
        assert((x + z).drop_first() =~= x.drop_first() + z);
    } else {
        assert((x + z)[0] == x[0]);
    }
}

proof fn lemma_trim_start_skips_line_breaks(x: Seq<char>)
    ensures
        trim_start(x) == trim_start(trim_start_line_breaks(x)),
    decreases x.len(),
{
    if x.len() > 0 && is_line_break(x[0]) {
        lemma_trim_start_skips_line_breaks(x.drop_first());
    }
}

proof fn lemma_trim_start_concat(a: Seq<char>, b: Seq<char>)
    ensures
        trim_start(a).len() > 0 ==> trim_start(a + b) == trim_start(a) + b,
        trim_start(a).len() == 0 ==> trim_start(a + b) == trim_start(b),
    decreases a.len(),
{
    if a.len() == 0 {
        assert(a + b =~= b);
    } else if is_ws(a[0]) {
        lemma_trim_start_concat(a.drop_first(), b);
        assert((a + b).drop_first() =~= a.drop_first() + b);
    } else {
        assert((a + b)[0] == a[0]);
    }
}

proof fn lemma_trim_end_newline(u: Seq<char>)
    ensures
        trim_end(u + seq!['\n']) == trim_end(u),
{
    let w = u + seq!['\n'];
    assert(w.drop_last() =~= u);
    assert(is_ws(w.last()));
}

/// A reply wrapped in a Markdown code fence, with or without the `json` tag on the
/// opening fence, reads as the trimmed text inside it.
pub proof fn fenced_reply_reads_as_its_content(x: Seq<char>)
    ensures
        unfenced("```json\n"@ + x + "\n```"@) == trim(x),
        unfenced("```\n"@ + x + "\n```"@) == trim(x),
{
    reveal_strlit("```json\n");
    reveal_strlit("```\n");
    reveal_strlit("\n```");
    let tail = "\n```"@;
    lemma_trim_start_line_breaks_concat(x, tail);
    assert(trim_start_line_breaks(tail) =~= fence()) by {
        assert(tail.drop_first() =~= fence());
        assert(trim_start_line_breaks(fence()) == fence());
    }
    lemma_trim_start_skips_line_breaks(x);
    let tx = trim_start_line_breaks(x);
    lemma_trim_start_concat(tx, seq!['\n']);
    lemma_trim_end_newline(trim_start(tx));
    if tx.len() == 0 {
        assert(trim_start(tx) == tx);
        assert(trim(x) =~= seq![]) by {
            assert(trim_start(x) == trim_start(tx));
        }
    } else {
        let w = tx + tail;
        assert(w =~= (tx + seq!['\n']) + fence());
        assert(w.subrange(w.len() - 3, w.len() as int) =~= fence());
        assert(w.subrange(0, w.len() - 3) =~= tx + seq!['\n']);
        assert(strip_suffix_or_keep(w, fence()) =~= tx + seq!['\n']);
        if trim_start(tx).len() == 0 {
            assert(trim_start(seq!['\n']) =~= seq![]) by {
                let nl = seq!['\n'];
                assert(nl[0] == '\n');
                assert(is_ws(nl[0]));
                assert(nl.drop_first() =~= seq![]);
                assert(trim_start(nl) == trim_start(nl.drop_first()));
            }
        }
    }
    let prefixes = seq!["```json\n"@, "```\n"@];
    assert forall|k: int| 0 <= k < 2 implies unfenced(#[trigger] prefixes[k] + x + tail) == trim(x) by {
        let raw = prefixes[k] + x + tail;
        assert(raw[0] == '`');
        assert(raw.last() == '`');
        assert(trim_start(raw) == raw);
        assert(trim_end(raw) == raw);
        assert(raw.subrange(0, 3) =~= fence());
        let after = raw.subrange(3, raw.len() as int);
        if k == 0 {
            assert(after =~= json_tag() + (seq!['\n'] + x + tail));
            assert(after.subrange(0, 4) =~= json_tag());
            assert(strip_prefix_or_keep(after, json_tag()) =~= seq!['\n'] + x + tail);
        } else {
            assert(after =~= seq!['\n'] + x + tail);
            assert(after[0] == '\n');
            if after.len() >= 4 {
                assert(after.subrange(0, 4)[0] == '\n');
            }
            assert(strip_prefix_or_keep(after, json_tag()) == after);
        }
        let rest = seq!['\n'] + x + tail;
        assert(rest.drop_first() =~= x + tail);
        assert(trim_start_line_breaks(rest) == trim_start_line_breaks(x + tail));
        if tx.len() == 0 {
            assert(fence().subrange(0, 3) =~= fence());
            assert(strip_suffix_or_keep(fence(), fence()) =~= seq![]);
            assert(trim(seq![]) =~= seq![]);
        }
    }
    assert(prefixes[0] == "```json\n"@);
    assert(prefixes[1] == "```\n"@);
}

/// The error for a malformed reply names the stage that received it.
pub proof fn malformed_reply_names_its_stage(stage: &'static str, raw: String, source: String)
    ensures
        contains(error_text(Error::BadModelJson { stage, raw, source }), stage@),
{
    let pre = "the model replied with something that was not valid JSON for stage '"@;
    let post = "': "@ + source@ + "\n---\n"@ + raw@ + "\n---"@;
    lemma_contains_concat(pre, stage@, post);
    assert(error_text(Error::BadModelJson { stage, raw, source }) =~= pre + stage@ + post);
}

} // verus!
