//! A content-addressed cache of finished explanations: where entries live and what
//! they are called. Reading and writing the files is left to the caller.
use crate::error::Error;
use crate::model::{level_text, Level, Request};
use crate::text::{concat2, contains, decimal, decimal_string, push_char, trim, trim_str};
use vstd::prelude::*;
use vstd::string::StringExecFns;
use vstd::utf8::encode_utf8;

verus! {

/// The SHA-256 digest of `data`.
pub uninterp spec fn sha256_of(data: Seq<u8>) -> Seq<u8>;

/// The result of `str::to_lowercase` on `s`.
pub uninterp spec fn lowercase_of(s: Seq<char>) -> Seq<char>;

/// `sha2::Sha256::digest`. Claims that the result is the SHA-256 digest of `data`,
/// named by `sha256_of`, and that it is 32 bytes long (`Sha256`'s output size).
#[verifier::external_body]
fn sha256(data: &[u8]) -> (r: Vec<u8>)
    ensures
        r@ == sha256_of(data@),
        r@.len() == 32,
{
    <sha2::Sha256 as sha2::Digest>::digest(data).to_vec()
}

/// ASCII `A`-`Z` to `a`-`z`; every other character as it is.
pub open spec fn ascii_lower(c: char) -> char {
    if 'A' <= c <= 'Z' {
        ((c as u32) + 32) as char
    } else {
        c
    }
}

pub open spec fn all_ascii(s: Seq<char>) -> bool {
    forall|i: int| 0 <= i < s.len() ==> (#[trigger] s[i] as u32) < 128
}

/// `str::to_lowercase`. Claims that the result is the lowercase mapping of `s`, named
/// by `lowercase_of`, and that on ASCII text this mapping lowers `A`-`Z` and keeps
/// every other character; the Unicode case tables beyond ASCII are not stated.
#[verifier::external_body]
fn to_lowercase(s: &str) -> (r: String)
    ensures
        r@ == lowercase_of(s@),
        all_ascii(s@) ==> r@ == s@.map_values(|c: char| ascii_lower(c)),
{
    s.to_lowercase()
}

/// A name made of lowercase ASCII letters only, at least one.
pub open spec fn is_plain_name(s: Seq<char>) -> bool {
    s.len() > 0 && forall|i: int| 0 <= i < s.len() ==> 'a' <= #[trigger] s[i] <= 'z'
}

/// `directories::ProjectDirs::from(qualifier, organization, application)` followed by
/// `cache_dir()`, as text (a path that is not valid Unicode comes back with
/// replacement characters). Which directory comes back depends on the platform and
/// the environment (`XDG_CACHE_HOME`, `HOME`), and `None` comes back when no home
/// directory is found, so neither is claimed. Claimed: with an empty qualifier and
/// organization and an application name of lowercase letters, the project path is
/// the application name itself on every platform (Linux lowercases it and drops
/// spaces, macOS joins the non-empty parts with `.`, Windows joins organization and
/// application), and the cache directory is a directory joined with it, so a
/// directory that comes back contains the name.
#[verifier::external_body]
fn project_cache_dir(qualifier: &str, organization: &str, application: &str) -> (r: Option<String>)
    requires
        qualifier@.len() == 0,
        organization@.len() == 0,
        is_plain_name(application@),
    ensures
        r matches Some(d) ==> contains(d@, application@),
{
    match directories::ProjectDirs::from(qualifier, organization, application) {
        Some(dirs) => Some(dirs.cache_dir().to_string_lossy().into_owned()),
        None => None,
    }
}

/// `PathBuf::join` with a relative or absolute name, on a Unix path written as text.
pub open spec fn path_join(dir: Seq<char>, name: Seq<char>) -> Seq<char> {
    if name.len() > 0 && name[0] == '/' {
        name
    } else if dir.len() == 0 || dir.last() == '/' {
        dir + name
    } else {
        dir + seq!['/'] + name
    }
}

pub open spec fn hex_digit(d: nat) -> char {
    if d < 10 {
        (48 + d) as char
    } else {
        (87 + d) as char
    }
}

/// Two lowercase hexadecimal digits per byte, high nibble first (`{:x}` on a digest).
pub open spec fn hex_lower(bytes: Seq<u8>) -> Seq<char>
    decreases bytes.len(),
{
    if bytes.len() == 0 {
        seq![]
    } else {
        seq![hex_digit((bytes[0] / 16) as nat), hex_digit((bytes[0] % 16) as nat)] + hex_lower(
            bytes.drop_first(),
        )
    }
}

/// A lowercase hexadecimal digit: `0`-`9` or `a`-`f`.
pub open spec fn is_lower_hex(c: char) -> bool {
    ('0' <= c <= '9') || ('a' <= c <= 'f')
}

/// Hex text has two digits per byte, each a lowercase hexadecimal digit.
pub proof fn lemma_hex_lower(bytes: Seq<u8>)
    ensures
        hex_lower(bytes).len() == 2 * bytes.len(),
        forall|i: int| 0 <= i < hex_lower(bytes).len() ==> is_lower_hex(#[trigger] hex_lower(bytes)[i]),
    decreases bytes.len(),
{
    if bytes.len() > 0 {
        lemma_hex_lower(bytes.drop_first());
        let hi = (bytes[0] / 16) as nat;
        let lo = (bytes[0] % 16) as nat;
        let h = seq![hex_digit(hi), hex_digit(lo)];
        let rest = hex_lower(bytes.drop_first());
        assert(hex_lower(bytes) == h + rest);
        assert(is_lower_hex(hex_digit(hi)));
        assert(is_lower_hex(hex_digit(lo)));
        assert forall|i: int| 0 <= i < hex_lower(bytes).len() implies is_lower_hex(#[trigger] hex_lower(bytes)[i]) by {
            if i >= 2 {
                assert(hex_lower(bytes)[i] == rest[i - 2]);
            } else if i == 0 {
                assert(hex_lower(bytes)[i] == hex_digit(hi));
            } else {
                assert(hex_lower(bytes)[i] == hex_digit(lo));
            }
        }
    }
}

/// What the cache key hashes: a version tag, the model, the pipeline shape, the level,
/// the normalised query and the context, as UTF-8, one after another.
pub open spec fn key_material_of(
    model_id: Seq<char>,
    pipeline_tag: Seq<char>,
    level: Level,
    folded_query: Seq<char>,
    context: Seq<char>,
) -> Seq<u8> {
    encode_utf8("plainly/v1"@) + encode_utf8(model_id) + encode_utf8(pipeline_tag) + encode_utf8(
        level_text(level),
    ) + encode_utf8(folded_query) + encode_utf8(context)
}

pub open spec fn context_text(context: Option<String>) -> Seq<char> {
    match context {
        Some(c) => c@,
        None => seq![],
    }
}

/// The cache key of a request: the hex SHA-256 of its key material, with the query
/// trimmed and lowercased.
pub open spec fn cache_key_of(request: Request, model_id: Seq<char>, pipeline_tag: Seq<char>) -> Seq<char> {
    hex_lower(
        sha256_of(
            key_material_of(
                model_id,
                pipeline_tag,
                request.level,
                lowercase_of(trim(request.query@)),
                context_text(request.context),
            ),
        ),
    )
}

/// The last position of `c` in `s`.
pub open spec fn last_index_of(s: Seq<char>, c: char) -> Option<int>
    decreases s.len(),
{
    if s.len() == 0 {
        None
    } else if s.last() == c {
        Some(s.len() - 1)
    } else {
        last_index_of(s.drop_last(), c)
    }
}

/// `Path::extension` of a file name: the text after the last `.`, unless that dot
/// is the first character or the name is `..`.
pub open spec fn extension_of(name: Seq<char>) -> Option<Seq<char>> {
    if name == ".."@ {
        None
    } else {
        match last_index_of(name, '.') {
            None => None,
            Some(i) => if i == 0 {
                None
            } else {
                Some(name.subrange(i + 1, name.len() as int))
            },
        }
    }
}

/// Appends the UTF-8 encoding of `s` to `out`.
fn push_utf8(out: &mut Vec<u8>, s: &str)
    ensures
        final(out)@ == old(out)@ + encode_utf8(s@),
{
    let b = s.as_bytes();
    let mut i: usize = 0;
    while i < b.len()
        invariant
            i <= b@.len(),
            b@ == encode_utf8(s@),
            out@ == old(out)@ + b@.subrange(0, i as int),
        decreases b@.len() - i,
    {
        out.push(b[i]);
        i = i + 1;
        assert(b@.subrange(0, i as int) =~= b@.subrange(0, i - 1).push(b@[i - 1]));
    }
    assert(b@.subrange(0, b@.len() as int) =~= b@);
}

fn hex_char(d: u8) -> (c: char)
    requires
        d < 16,
    ensures
        c == hex_digit(d as nat),
{
    if d < 10 {
        (48 + d) as char
    } else {
        (87 + d) as char
    }
}

/// A content-addressed cache of finished explanations.
///
/// The key covers the model as well as the question, so switching models or changing
/// the pipeline shape gives you a fresh answer instead of a stale one.
pub struct Cache {
    dir: String,
}

impl View for Cache {
    type V = Seq<char>;

    /// The cache directory, as text.
    closed spec fn view(&self) -> Seq<char> {
        self.dir@
    }
}

impl Cache {
    pub fn new(dir: String) -> (r: Self)
        ensures
            r@ == dir@,
    {
        Cache { dir }
    }

    /// The name the per-user directories are asked for under.
    pub fn application_name() -> (r: &'static str)
        ensures
            r@ == "plainly"@,
    {
        "plainly"
    }

    /// The per-user cache directory, or `None` if the OS will not tell us where it is:
    /// the `explanations` directory under the cache directory the platform gives for
    /// the application name (with no qualifier and no organization).
    pub fn default_dir() -> (r: Option<String>)
        ensures
            r matches Some(d) ==> exists|base: Seq<char>|
                contains(base, "plainly"@) && d@ == path_join(base, "explanations"@),
    {
        let name = Self::application_name();
        proof {
            reveal_strlit("plainly");
            reveal_strlit("");
            assert(is_plain_name(name@));
        }
        match project_cache_dir("", "", name) {
            Some(base) => {
                let r = Self::explanations_dir(base.as_str());
                assert(contains(base@, "plainly"@) && r@ == path_join(base@, "explanations"@));
                Some(r)
            },
            None => None,
        }
    }

    /// The directory of cached explanations under a per-user cache directory.
    pub fn explanations_dir(base: &str) -> (r: String)
        ensures
            r@ == path_join(base@, "explanations"@),
    {
        join_path(base, "explanations")
    }

    /// The bytes a cache key is the digest of.
    pub fn key_material(
        model_id: &str,
        pipeline_tag: &str,
        level: Level,
        folded_query: &str,
        context: &str,
    ) -> (r: Vec<u8>)
        ensures
            r@ == key_material_of(model_id@, pipeline_tag@, level, folded_query@, context@),
    {
        let mut out: Vec<u8> = Vec::new();
        push_utf8(&mut out, "plainly/v1");
        push_utf8(&mut out, model_id);
        push_utf8(&mut out, pipeline_tag);
        push_utf8(&mut out, level.label());
        push_utf8(&mut out, folded_query);
        push_utf8(&mut out, context);
        assert(out@ =~= key_material_of(model_id@, pipeline_tag@, level, folded_query@, context@));
        out
    }

    /// Lowercase hexadecimal text of a digest.
    pub fn hex_digest(digest: &[u8]) -> (r: String)
        ensures
            r@ == hex_lower(digest@),
    {
        let mut r = String::new();
        let mut i: usize = 0;
        assert(digest@.subrange(0, digest@.len() as int) =~= digest@);
        while i < digest.len()
            invariant
                i <= digest@.len(),
                hex_lower(digest@) == r@ + hex_lower(digest@.subrange(i as int, digest@.len() as int)),
            decreases digest@.len() - i,
        {
            let ghost rest = digest@.subrange(i as int, digest@.len() as int);
            let b = digest[i];
            assert(rest[0] == b);
            assert(rest.drop_first() =~= digest@.subrange(i + 1, digest@.len() as int));
            push_char(&mut r, hex_char(b / 16));
            push_char(&mut r, hex_char(b % 16));
            i = i + 1;
        }
        assert(digest@.subrange(i as int, digest@.len() as int) =~= seq![]);
        r
    }

    /// The cache key of a request: the query is compared trimmed and lowercased, and
    /// the model and the pipeline shape are part of the key.
    pub fn key(request: &Request, model_id: &str, pipeline_tag: &str) -> (r: String)
        ensures
            r@ == cache_key_of(*request, model_id@, pipeline_tag@),
            r@.len() == 64,
            forall|i: int| 0 <= i < r@.len() ==> is_lower_hex(#[trigger] r@[i]),
            all_ascii(trim(request.query@)) ==> r@ == hex_lower(
                sha256_of(
                    key_material_of(
                        model_id@,
                        pipeline_tag@,
                        request.level,
                        trim(request.query@).map_values(|c: char| ascii_lower(c)),
                        context_text(request.context),
                    ),
                ),
            ),
    {
        let folded = to_lowercase(trim_str(request.query.as_str()));
        let context: &str = match &request.context {
            Some(c) => c.as_str(),
            None => "",
        };
        proof {
            reveal_strlit("");
        }
        assert(context@ == context_text(request.context));
        let material = Self::key_material(
            model_id,
            pipeline_tag,
            request.level,
            folded.as_str(),
            context,
        );
        let digest = sha256(material.as_slice());
        assert(folded@ == lowercase_of(trim(request.query@)));
        proof {
            lemma_hex_lower(digest@);
        }
        Self::hex_digest(digest.as_slice())
    }

    /// Where the entry for `key` is stored.
    pub fn path_for(&self, key: &str) -> (r: String)
        ensures
            r@ == path_join(self@, key@ + ".json"@),
    {
        let name = concat2(key, ".json");
        join_path(self.dir.as_str(), name.as_str())
    }

    /// Whether a file in the cache directory is a cached explanation (its extension is
    /// `json`); clearing the cache removes exactly these.
    pub fn is_entry_name(file_name: &str) -> (r: bool)
        ensures
            r == (extension_of(file_name@) == Some("json"@)),
    {
        let v = crate::text::chars_of(file_name);
        proof {
            reveal_strlit("..");
            reveal_strlit("json");
        }
        if v.len() == 2 && v[0] == '.' && v[1] == '.' {
            assert(v@ =~= ".."@);
            return false;
        }
        assert(file_name@ != ".."@) by {
            if file_name@ == ".."@ {
                assert(v@[0] == '.' && v@[1] == '.');
            }
        }
        let mut i = v.len();
        assert(v@.subrange(0, i as int) =~= v@);
        while i > 0 && v[i - 1] != '.'
            invariant
                i <= v@.len(),
                last_index_of(v@, '.') == last_index_of(v@.subrange(0, i as int), '.'),
            decreases i,
        {
            assert(v@.subrange(0, i as int).drop_last() =~= v@.subrange(0, i - 1));
            i = i - 1;
        }
        if i <= 1 {
            proof {
                if i == 1 {
                    assert(v@.subrange(0, 1).last() == v@[0]);
                }
            }
            return false;
        }
        assert(v@.subrange(0, i as int).last() == v@[i - 1]);
        let n = v.len();
        let r = n - i == 4 && v[i] == 'j' && v[i + 1] == 's' && v[i + 2] == 'o' && v[i + 3] == 'n';
        proof {
            let ext = v@.subrange(i as int, n as int);
            if r {
                assert(ext =~= "json"@);
            } else if ext == "json"@ {
                assert(ext.len() == 4);
                assert(ext[0] == 'j' && ext[1] == 's' && ext[2] == 'o' && ext[3] == 'n');
            }
        }
        r
    }

    /// What `cache clear` reports.
    pub fn cleared_message(removed: usize) -> (r: String)
        ensures
            r@ == "removed "@ + decimal(removed as nat) + " cached explanation(s)"@,
    {
        let mut r = String::from_str("removed ");
        let n = decimal_string(removed as u64);
        r.append(n.as_str());
        r.append(" cached explanation(s)");
        r
    }

    /// The error for a system that offers no cache directory.
    pub fn no_dir_error() -> (r: Error)
        ensures
            r matches Error::Input(m) && m@ == "this system has no cache directory to use"@,
    {
        Error::Input(String::from_str("this system has no cache directory to use"))
    }

    pub fn dir(&self) -> (r: &str)
        ensures
            r@ == self@,
    {
        self.dir.as_str()
    }
}

/// `PathBuf::join` on text.
fn join_path(dir: &str, name: &str) -> (r: String)
    ensures
        r@ == path_join(dir@, name@),
{
    let nv = crate::text::chars_of(name);
    let dv = crate::text::chars_of(dir);
    if nv.len() > 0 && nv[0] == '/' {
        return crate::text::owned(name);
    }
    let mut r = String::from_str(dir);
    if !(dv.len() == 0 || dv[dv.len() - 1] == '/') {
        push_char(&mut r, '/');
    }
    r.append(name);
    r
}

/// Two requests that differ only in surrounding whitespace and letter case of the
/// query (as `str::to_lowercase` sees it) share a cache key.
pub proof fn key_ignores_case_and_surrounding_space(
    a: Request,
    b: Request,
    model_id: Seq<char>,
    pipeline_tag: Seq<char>,
)
    requires
        lowercase_of(trim(a.query@)) == lowercase_of(trim(b.query@)),
        a.level == b.level,
        context_text(a.context) == context_text(b.context),
    ensures
        cache_key_of(a, model_id, pipeline_tag) == cache_key_of(b, model_id, pipeline_tag),
{
}

proof fn lemma_cancel(a: Seq<u8>, x: Seq<u8>, y: Seq<u8>, r: Seq<u8>)
    requires
        a + x + r == a + y + r,
    ensures
        x == y,
{
    let l = a + x + r;
    assert(l.len() == (a + y + r).len());
    assert(x.len() == y.len());
    assert(x =~= l.subrange(a.len() as int, (a.len() + x.len()) as int));
    assert(y =~= (a + y + r).subrange(a.len() as int, (a.len() + y.len()) as int));
}

proof fn lemma_text_from_bytes(x: Seq<char>, y: Seq<char>)
    requires
        encode_utf8(x) == encode_utf8(y),
    ensures
        x == y,
{
    vstd::utf8::encode_utf8_decode_utf8(x);
    vstd::utf8::encode_utf8_decode_utf8(y);
}

/// Five byte strings one after another, the `k`-th replaced by `x`.
pub open spec fn five_with(p: Seq<Seq<u8>>, k: int, x: Seq<u8>) -> Seq<u8> {
    let q = p.update(k, x);
    q[0] + q[1] + q[2] + q[3] + q[4] + q[5]
}

proof fn lemma_five_cancel(p: Seq<Seq<u8>>, k: int, x: Seq<u8>, y: Seq<u8>)
    requires
        p.len() == 6,
        0 <= k < 6,
        five_with(p, k, x) == five_with(p, k, y),
    ensures
        x == y,
{
    let qx = p.update(k, x);
    let qy = p.update(k, y);
    let mut pre = Seq::<u8>::empty();
    let mut post = Seq::<u8>::empty();
    if k == 0 {
        post = p[1] + p[2] + p[3] + p[4] + p[5];
    } else if k == 1 {
        pre = p[0];
        post = p[2] + p[3] + p[4] + p[5];
    } else if k == 2 {
        pre = p[0] + p[1];
        post = p[3] + p[4] + p[5];
    } else if k == 3 {
        pre = p[0] + p[1] + p[2];
        post = p[4] + p[5];
    } else if k == 4 {
        pre = p[0] + p[1] + p[2] + p[3];
        post = p[5];
    } else {
        pre = p[0] + p[1] + p[2] + p[3] + p[4];
    }
    assert(five_with(p, k, x) =~= pre + x + post);
    assert(five_with(p, k, y) =~= pre + y + post);
    lemma_cancel(pre, x, y, post);
}

pub open spec fn material_parts(
    model: Seq<char>,
    tag: Seq<char>,
    level: Level,
    query: Seq<char>,
    context: Seq<char>,
) -> Seq<Seq<u8>> {
    seq![
        encode_utf8("plainly/v1"@),
        encode_utf8(model),
        encode_utf8(tag),
        encode_utf8(level_text(level)),
        encode_utf8(query),
        encode_utf8(context),
    ]
}

proof fn lemma_material_is_five_with(
    model: Seq<char>,
    tag: Seq<char>,
    level: Level,
    query: Seq<char>,
    context: Seq<char>,
    k: int,
)
    requires
        1 <= k < 6,
    ensures
        key_material_of(model, tag, level, query, context) == five_with(
            material_parts(model, tag, level, query, context),
            k,
            material_parts(model, tag, level, query, context)[k],
        ),
{
    let p = material_parts(model, tag, level, query, context);
    assert(p.update(k, p[k]) =~= p);
}

/// The bytes a cache key is the digest of tell requests apart: changing only the
/// model, only the pipeline tag, only the level, only the (normalised) query or only
/// the context changes them. (That different bytes give different keys is SHA-256's
/// collision resistance, which is not stated here.)
pub proof fn key_material_separates_each_part(
    model: Seq<char>,
    model2: Seq<char>,
    tag: Seq<char>,
    tag2: Seq<char>,
    level: Level,
    level2: Level,
    query: Seq<char>,
    query2: Seq<char>,
    context: Seq<char>,
    context2: Seq<char>,
)
    ensures
        key_material_of(model, tag, level, query, context) == key_material_of(model2, tag, level, query, context) ==> model == model2,
        key_material_of(model, tag, level, query, context) == key_material_of(model, tag2, level, query, context) ==> tag == tag2,
        key_material_of(model, tag, level, query, context) == key_material_of(model, tag, level2, query, context) ==> level == level2,
        key_material_of(model, tag, level, query, context) == key_material_of(model, tag, level, query2, context) ==> query == query2,
        key_material_of(model, tag, level, query, context) == key_material_of(model, tag, level, query, context2) ==> context == context2,
{
    material_separates_model(model, model2, tag, level, query, context);
    material_separates_tag(model, tag, tag2, level, query, context);
    material_separates_level(model, tag, level, level2, query, context);
    material_separates_query(model, tag, level, query, query2, context);
    material_separates_context(model, tag, level, query, context, context2);
}

proof fn material_separates_model(
    model: Seq<char>,
    model2: Seq<char>,
    tag: Seq<char>,
    level: Level,
    query: Seq<char>,
    context: Seq<char>,
)
    ensures
        key_material_of(model, tag, level, query, context) == key_material_of(model2, tag, level, query, context) ==> model == model2,
{
    let p = material_parts(model, tag, level, query, context);
    lemma_material_is_five_with(model, tag, level, query, context, 1);
    lemma_material_is_five_with(model2, tag, level, query, context, 1);
    if key_material_of(model, tag, level, query, context) == key_material_of(model2, tag, level, query, context) {
        assert(material_parts(model2, tag, level, query, context) == p.update(1, encode_utf8(model2)));
        lemma_five_cancel(p, 1, encode_utf8(model), encode_utf8(model2));
        lemma_text_from_bytes(model, model2);
    }
}

proof fn material_separates_tag(
    model: Seq<char>,
    tag: Seq<char>,
    tag2: Seq<char>,
    level: Level,
    query: Seq<char>,
    context: Seq<char>,
)
    ensures
        key_material_of(model, tag, level, query, context) == key_material_of(model, tag2, level, query, context) ==> tag == tag2,
{
    let p = material_parts(model, tag, level, query, context);
    lemma_material_is_five_with(model, tag, level, query, context, 2);
    lemma_material_is_five_with(model, tag2, level, query, context, 2);
    if key_material_of(model, tag, level, query, context) == key_material_of(model, tag2, level, query, context) {
        assert(material_parts(model, tag2, level, query, context) == p.update(2, encode_utf8(tag2)));
        lemma_five_cancel(p, 2, encode_utf8(tag), encode_utf8(tag2));
        lemma_text_from_bytes(tag, tag2);
    }
}

proof fn material_separates_level(
    model: Seq<char>,
    tag: Seq<char>,
    level: Level,
    level2: Level,
    query: Seq<char>,
    context: Seq<char>,
)
    ensures
        key_material_of(model, tag, level, query, context) == key_material_of(model, tag, level2, query, context) ==> level == level2,
{
    let p = material_parts(model, tag, level, query, context);
    lemma_material_is_five_with(model, tag, level, query, context, 3);
    lemma_material_is_five_with(model, tag, level2, query, context, 3);
    if key_material_of(model, tag, level, query, context) == key_material_of(model, tag, level2, query, context) {
        assert(material_parts(model, tag, level2, query, context) == p.update(3, encode_utf8(level_text(level2))));
        lemma_five_cancel(p, 3, encode_utf8(level_text(level)), encode_utf8(level_text(level2)));
        lemma_text_from_bytes(level_text(level), level_text(level2));
        reveal_strlit("5");
        reveal_strlit("15");
        reveal_strlit("expert");
        assert(level_text(Level::Five).len() == 1);
        assert(level_text(Level::Fifteen).len() == 2);
        assert(level_text(Level::Expert).len() == 6);
    }
}

proof fn material_separates_query(
    model: Seq<char>,
    tag: Seq<char>,
    level: Level,
    query: Seq<char>,
    query2: Seq<char>,
    context: Seq<char>,
)
    ensures
        key_material_of(model, tag, level, query, context) == key_material_of(model, tag, level, query2, context) ==> query == query2,
{
    let p = material_parts(model, tag, level, query, context);
    lemma_material_is_five_with(model, tag, level, query, context, 4);
    lemma_material_is_five_with(model, tag, level, query2, context, 4);
    if key_material_of(model, tag, level, query, context) == key_material_of(model, tag, level, query2, context) {
        assert(material_parts(model, tag, level, query2, context) == p.update(4, encode_utf8(query2)));
        lemma_five_cancel(p, 4, encode_utf8(query), encode_utf8(query2));
        lemma_text_from_bytes(query, query2);
    }
}

proof fn material_separates_context(
    model: Seq<char>,
    tag: Seq<char>,
    level: Level,
    query: Seq<char>,
    context: Seq<char>,
    context2: Seq<char>,
)
    ensures
        key_material_of(model, tag, level, query, context) == key_material_of(model, tag, level, query, context2) ==> context == context2,
{
    let p = material_parts(model, tag, level, query, context);
    lemma_material_is_five_with(model, tag, level, query, context, 5);
    lemma_material_is_five_with(model, tag, level, query, context2, 5);
    if key_material_of(model, tag, level, query, context) == key_material_of(model, tag, level, query, context2) {
        assert(material_parts(model, tag, level, query, context2) == p.update(5, encode_utf8(context2)));
        lemma_five_cancel(p, 5, encode_utf8(context), encode_utf8(context2));
        lemma_text_from_bytes(context, context2);
    }
}

} // verus!
