//! The command line as data: what the user typed, the decisions it implies,
//! and the request it becomes. Parsing `argv` itself is done by the binary.
use crate::error::Error;
use crate::model::{Level, Request};
use crate::text::{
    bool_string, bool_text, chars_of, free_of, join, join_strings, lemma_free_of_subrange, owned,
    push_char, push_range, trim, trim_bounds, trim_str,
};
use vstd::prelude::*;
use vstd::std_specs::convert::FromSpecImpl;
use vstd::string::StringExecFns;

verus! {

/// Everything the user typed.
#[derive(Debug)]
pub struct Cli {
    /// The concept to explain, e.g. "eventual consistency".
    pub query: Vec<String>,
    pub command: Option<Command>,
    pub common: CommonArgs,
}

#[derive(Debug)]
pub enum Command {
    /// Explain a piece of real code rather than a named concept.
    Explain {
        file: String,
        /// Restrict to a line range, e.g. 40-80 or 40.
        lines: Option<String>,
        /// What you want to know about it.
        about: String,
    },
    /// Inspect or clear cached explanations.
    Cache { action: CacheAction },
}

#[derive(Debug, Clone, Copy, PartialEq, Eq, Structural)]
pub enum CacheAction {
    /// Delete every cached explanation.
    Clear,
    /// Print the cache directory.
    Path,
}

/// The options every command accepts.
#[derive(Debug, Clone)]
pub struct CommonArgs {
    pub level: LevelArg,
    pub model: String,
    pub base_url: String,
    pub api_key: Option<String>,
    pub json: bool,
    pub fast: bool,
    pub no_sources: bool,
    pub no_cache: bool,
    pub refresh: bool,
    pub no_color: bool,
    pub width: usize,
    pub quiet: bool,
}

/// `--level` as written on the command line: `5`, `15` or `expert`.
#[derive(Debug, Clone, Copy, PartialEq, Eq, Structural)]
pub enum LevelArg {
    Five,
    Fifteen,
    Expert,
}

pub open spec fn level_of(arg: LevelArg) -> Level {
    match arg {
        LevelArg::Five => Level::Five,
        LevelArg::Fifteen => Level::Fifteen,
        LevelArg::Expert => Level::Expert,
    }
}

impl From<LevelArg> for Level {
    fn from(value: LevelArg) -> (r: Self) {
        match value {
            LevelArg::Five => Level::Five,
            LevelArg::Fifteen => Level::Fifteen,
            LevelArg::Expert => Level::Expert,
        }
    }
}

impl FromSpecImpl<LevelArg> for Level {
    open spec fn obeys_from_spec() -> bool {
        true
    }

    open spec fn from_spec(v: LevelArg) -> Level {
        level_of(v)
    }
}

/// The tag that names which optional stages ran, part of every cache key.
pub open spec fn pipeline_tag_text(critic: bool, sources: bool) -> Seq<char> {
    "critic="@ + bool_text(critic) + ",sources="@ + bool_text(sources)
}

impl CommonArgs {
    /// The fact-check pass runs unless `--fast` was given.
    pub fn use_critic(&self) -> (r: bool)
        ensures
            r == !self.fast,
    {
        !self.fast
    }

    /// The sources pass runs unless `--fast` or `--no-sources` was given.
    pub fn use_grounder(&self) -> (r: bool)
        ensures
            r == (!self.fast && !self.no_sources),
    {
        !self.fast && !self.no_sources
    }

    /// `critic={use_critic},sources={use_grounder}`.
    pub fn pipeline_tag(&self) -> (r: String)
        ensures
            r@ == pipeline_tag_text(!self.fast, !self.fast && !self.no_sources),
    {
        let mut r = String::from_str("critic=");
        let c = bool_string(self.use_critic());
        r.append(c.as_str());
        r.append(",sources=");
        let s = bool_string(self.use_grounder());
        r.append(s.as_str());
        r
    }

    /// The wrap width: output is wrapped at `--width`.
    pub fn render_width(&self) -> (r: usize)
        ensures
            r == self.width,
    {
        self.width
    }

    /// Color is used only when nothing asks for plain output and stdout is a terminal.
    pub fn use_color(&self, no_color_env: bool, stdout_is_terminal: bool) -> (r: bool)
        ensures
            r == (!self.no_color && !no_color_env && stdout_is_terminal),
    {
        !self.no_color && !no_color_env && stdout_is_terminal
    }

    /// Progress lines go to stderr unless `--quiet` or `--json` was given.
    pub fn shows_progress(&self) -> (r: bool)
        ensures
            r == (!self.quiet && !self.json),
    {
        !self.quiet && !self.json
    }

    /// The cache is consulted and written unless `--no-cache` was given.
    pub fn cache_enabled(&self) -> (r: bool)
        ensures
            r == !self.no_cache,
    {
        !self.no_cache
    }

    /// The API key, or the error that says none was given.
    pub fn api_key_or_error(&self) -> (r: Result<String, Error>)
        ensures
            match self.api_key {
                Some(k) => r matches Ok(s) && s == k,
                None => r matches Err(Error::MissingApiKey),
            },
    {
        match &self.api_key {
            Some(k) => Ok(k.clone()),
            None => Err(Error::MissingApiKey),
        }
    }

    /// The progress line for a stage: `… {stage}`.
    pub fn progress_line(stage: &str) -> (r: String)
        ensures
            r@ == "\u{2026} "@ + stage@,
    {
        let mut r = String::from_str("\u{2026} ");
        r.append(stage);
        r
    }

    /// A cached answer may be reused unless `--refresh` was given.
    pub fn reuse_cached(&self) -> (r: bool)
        ensures
            r == !self.refresh,
    {
        !self.refresh
    }
}

// ---------------------------------------------------------------------------
// Line ranges

pub open spec fn is_digit(c: char) -> bool {
    48 <= (c as u32) <= 57
}

/// The value of a run of decimal digits.
pub open spec fn digits_value(s: Seq<char>) -> nat
    decreases s.len(),
{
    if s.len() == 0 {
        0
    } else {
        digits_value(s.drop_last()) * 10 + ((s.last() as u32) - 48) as nat
    }
}

pub open spec fn all_digits(s: Seq<char>) -> bool {
    forall|i: int| 0 <= i < s.len() ==> is_digit(#[trigger] s[i])
}

/// `usize::from_str`: an optional `+`, then one or more ASCII digits, whose value fits.
pub open spec fn parse_usize_text(s: Seq<char>) -> Option<usize> {
    let d = if s.len() > 0 && s[0] == '+' {
        s.drop_first()
    } else {
        s
    };
    if d.len() > 0 && all_digits(d) && digits_value(d) <= usize::MAX {
        Some(digits_value(d) as usize)
    } else {
        None
    }
}

/// The position of the first `c` in `s`.
pub open spec fn index_of(s: Seq<char>, c: char) -> Option<int>
    decreases s.len(),
{
    if s.len() == 0 {
        None
    } else if s[0] == c {
        Some(0)
    } else {
        match index_of(s.drop_first(), c) {
            Some(i) => Some(i + 1),
            None => None,
        }
    }
}

pub open spec fn not_a_range_text(spec: Seq<char>) -> Seq<char> {
    "'"@ + spec + "' is not a line range like 40-80"@
}

pub open spec fn backwards_range_text(spec: Seq<char>) -> Seq<char> {
    "'"@ + spec + "' ends before it starts"@
}

/// `40-80`, `40` or `40-` read as an inclusive 1-based line range, or the message
/// that says why it is not one.
pub open spec fn line_range_of(text: Seq<char>) -> core::result::Result<
    (usize, Option<usize>),
    Seq<char>,
> {
    let spec = trim(text);
    let (start, end) = match index_of(spec, '-') {
        None => (spec, Some(spec)),
        Some(i) => if i + 1 == spec.len() {
            (spec.subrange(0, i), None)
        } else {
            (spec.subrange(0, i), Some(spec.subrange(i + 1, spec.len() as int)))
        },
    };
    match parse_usize_text(trim(start)) {
        None => Err(not_a_range_text(spec)),
        Some(first) => if first == 0 {
            Err("line numbers start at 1"@)
        } else {
            match end {
                None => Ok((first, None)),
                Some(e) => match parse_usize_text(trim(e)) {
                    None => Err(not_a_range_text(spec)),
                    Some(last) => if last < first {
                        Err(backwards_range_text(spec))
                    } else {
                        Ok((first, Some(last)))
                    },
                },
            }
        },
    }
}

/// A line range that parses starts at line 1 or later and, when it has an end, does
/// not end before it starts.
pub proof fn parsed_ranges_are_well_formed(text: Seq<char>)
    ensures
        line_range_of(text) matches Ok((first, last)) ==> first >= 1 && (last matches Some(l)
            ==> l >= first),
{
}

proof fn lemma_digits_value_prefix(s: Seq<char>, k: int)
    requires
        0 <= k <= s.len(),
    ensures
        digits_value(s.subrange(0, k)) <= digits_value(s),
    decreases s.len(),
{
    if k < s.len() {
        lemma_digits_value_prefix(s.drop_last(), k);
        assert(s.drop_last().subrange(0, k) =~= s.subrange(0, k));
    } else {
        assert(s.subrange(0, k) =~= s);
    }
}

proof fn lemma_index_of_bounds(s: Seq<char>, c: char)
    ensures
        index_of(s, c) matches Some(i) ==> 0 <= i < s.len() && s[i] == c,
    decreases s.len(),
{
    if s.len() > 0 && s[0] != c {
        lemma_index_of_bounds(s.drop_first(), c);
    }
}

/// `usize::from_str` on `v[lo..hi]`.
fn parse_usize(v: &Vec<char>, lo: usize, hi: usize) -> (r: Option<usize>)
    requires
        lo <= hi <= v@.len(),
    ensures
        r == parse_usize_text(v@.subrange(lo as int, hi as int)),
{
    let ghost s = v@.subrange(lo as int, hi as int);
    let mut i = lo;
    if i < hi && v[i] == '+' {
        i = i + 1;
    }
    let ghost d = v@.subrange(i as int, hi as int);
    proof {
        if s.len() > 0 && s[0] == '+' {
            assert(d =~= s.drop_first());
        } else {
            assert(d =~= s);
        }
    }
    if i == hi {
        return None;
    }
    let start = i;
    let mut value: usize = 0;
    while i < hi
        invariant
            lo <= start <= i <= hi <= v@.len(),
            d == v@.subrange(start as int, hi as int),
            s == v@.subrange(lo as int, hi as int),
            d == (if s.len() > 0 && s[0] == '+' { s.drop_first() } else { s }),
            d.len() > 0,
            all_digits(v@.subrange(start as int, i as int)),
            value == digits_value(v@.subrange(start as int, i as int)),
        decreases hi - i,
    {
        let c = v[i];
        let ghost prefix = v@.subrange(start as int, i as int);
        let ghost next = v@.subrange(start as int, i + 1);
        assert(next.drop_last() =~= prefix);
        assert(next.last() == c);
        if !((c as u32) >= 48 && (c as u32) <= 57) {
            assert(d[i - start] == c);
            assert(!is_digit(d[i - start]));
            return None;
        }
        let digit = (c as u32 - 48) as usize;
        assert(digits_value(next) == digits_value(prefix) * 10 + digit);
        match value.checked_mul(10) {
            None => {
                proof {
                    assert(digits_value(next) > usize::MAX);
                    assert(next =~= d.subrange(0, i + 1 - start));
                    lemma_digits_value_prefix(d, i + 1 - start);
                }
                return None;
            },
            Some(tens) => match tens.checked_add(digit) {
                None => {
                    proof {
                        assert(digits_value(next) > usize::MAX);
                        assert(next =~= d.subrange(0, i + 1 - start));
                        lemma_digits_value_prefix(d, i + 1 - start);
                    }
                    return None;
                },
                Some(n) => {
                    value = n;
                },
            },
        }
        i = i + 1;
        assert(all_digits(v@.subrange(start as int, i as int))) by {
            assert forall|j: int| 0 <= j < next.len() implies is_digit(#[trigger] next[j]) by {
                if j < prefix.len() {
                    assert(next[j] == prefix[j]);
                }
            }
        }
    }
    Some(value)
}

/// The position of the first `c` in `v[lo..hi]`, relative to `lo`.
fn find_char(v: &Vec<char>, lo: usize, hi: usize, c: char) -> (r: Option<usize>)
    requires
        lo <= hi <= v@.len(),
    ensures
        match index_of(v@.subrange(lo as int, hi as int), c) {
            Some(i) => r == Some((lo + i) as usize),
            None => r is None,
        },
{
    let mut i = hi;
    // search from the back so that the invariant talks about the suffix
    let mut found: Option<usize> = None;
    while i > lo
        invariant
            lo <= i <= hi <= v@.len(),
            match index_of(v@.subrange(i as int, hi as int), c) {
                Some(k) => found == Some((i + k) as usize),
                None => found is None,
            },
        decreases i - lo,
    {
        i = i - 1;
        let ghost s = v@.subrange(i as int, hi as int);
        assert(s.drop_first() =~= v@.subrange(i + 1, hi as int));
        assert(s[0] == v@[i as int]);
        if v[i] == c {
            found = Some(i);
        }
    }
    found
}

/// Parse `40-80`, `40`, or `40-` into an inclusive 1-based line range.
pub fn parse_line_range(spec: &str) -> (r: core::result::Result<(usize, Option<usize>), String>)
    ensures
        match r {
            Ok(range) => line_range_of(spec@) == Ok::<(usize, Option<usize>), Seq<char>>(range),
            Err(message) => line_range_of(spec@) == Err::<(usize, Option<usize>), Seq<char>>(
                message@,
            ),
        },
{
    let trimmed = trim_str(spec);
    let v = chars_of(trimmed);
    let n = v.len();
    assert(v@.subrange(0, n as int) =~= trimmed@);
    let dash = find_char(&v, 0, n, '-');
    proof {
        lemma_index_of_bounds(v@, '-');
    }
    let (s_lo, s_hi, end) = match dash {
        None => (0, n, Some((0, n))),
        Some(i) => if i + 1 == n {
            (0, i, None)
        } else {
            (0, i, Some((i + 1, n)))
        },
    };
    let mut bad = String::from_str("'");
    bad.append(trimmed);
    bad.append("' is not a line range like 40-80");
    proof {
        let sp = trim(spec@);
        assert(sp == v@);
        match index_of(sp, '-') {
            None => {
                assert(v@.subrange(s_lo as int, s_hi as int) =~= sp);
            },
            Some(i) => {
                assert(v@.subrange(s_lo as int, s_hi as int) =~= sp.subrange(0, i));
            },
        }
    }
    let (a, b) = trim_bounds(&v, s_lo, s_hi);
    let first = match parse_usize(&v, a, b) {
        None => {
            return Err(bad);
        },
        Some(x) => x,
    };
    if first == 0 {
        return Err(String::from_str("line numbers start at 1"));
    }
    match end {
        None => Ok((first, None)),
        Some((e_lo, e_hi)) => {
            let (c, d) = trim_bounds(&v, e_lo, e_hi);
            match parse_usize(&v, c, d) {
                None => Err(bad),
                Some(last) => if last < first {
                    let mut m = String::from_str("'");
                    m.append(trimmed);
                    m.append("' ends before it starts");
                    Err(m)
                } else {
                    Ok((first, Some(last)))
                },
            }
        },
    }
}

// ---------------------------------------------------------------------------
// Slicing a file into lines

/// A line without the `\r` of a `\r\n` ending.
pub open spec fn strip_cr(line: Seq<char>) -> Seq<char> {
    if line.len() > 0 && line.last() == '\r' {
        line.drop_last()
    } else {
        line
    }
}

/// The lines ended so far by a `\n`, and the unfinished line after them.
pub open spec fn line_split(s: Seq<char>) -> (Seq<Seq<char>>, Seq<char>)
    decreases s.len(),
{
    if s.len() == 0 {
        (seq![], seq![])
    } else {
        let (done, cur) = line_split(s.drop_last());
        if s.last() == '\n' {
            (done.push(strip_cr(cur)), seq![])
        } else {
            (done, cur.push(s.last()))
        }
    }
}

/// `str::lines`: lines end at `\n` or `\r\n`; a last line without an ending counts
/// only when it is not empty.
pub open spec fn lines_of(s: Seq<char>) -> Seq<Seq<char>> {
    let (done, cur) = line_split(s);
    if cur.len() == 0 {
        done
    } else {
        done.push(cur)
    }
}

/// The lines whose 1-based number `n` has `start <= n` and, when `end` is given, `n <= end`.
pub open spec fn selected_lines(ls: Seq<Seq<char>>, start: usize, end: Option<usize>) -> Seq<Seq<char>> {
    let n = ls.len() as int;
    let lo = if start == 0 {
        0
    } else if start - 1 < n {
        start - 1
    } else {
        n
    };
    let hi = match end {
        None => n,
        Some(e) => if e < n {
            e as int
        } else {
            n
        },
    };
    if lo <= hi {
        ls.subrange(lo, hi)
    } else {
        seq![]
    }
}

pub proof fn lemma_lines_free_of(s: Seq<char>, c: char)
    requires
        free_of(s, c),
    ensures
        forall|k: int| 0 <= k < lines_of(s).len() ==> free_of(#[trigger] lines_of(s)[k], c),
{
    lemma_line_split_free_of(s, c);
    let (done, cur) = line_split(s);
    assert forall|k: int| 0 <= k < lines_of(s).len() implies free_of(#[trigger] lines_of(s)[k], c) by {
        if k < done.len() {
            assert(lines_of(s)[k] == done[k]);
        }
    }
}

proof fn lemma_line_split_free_of(s: Seq<char>, c: char)
    requires
        free_of(s, c),
    ensures
        forall|k: int| 0 <= k < line_split(s).0.len() ==> free_of(#[trigger] line_split(s).0[k], c),
        free_of(line_split(s).1, c),
    decreases s.len(),
{
    if s.len() > 0 {
        lemma_free_of_subrange(s, 0, s.len() - 1, c);
        assert(s.drop_last() =~= s.subrange(0, s.len() - 1));
        lemma_line_split_free_of(s.drop_last(), c);
        let (done, cur) = line_split(s.drop_last());
        if s.last() == '\n' {
            if cur.len() > 0 && cur.last() == '\r' {
                lemma_free_of_subrange(cur, 0, cur.len() - 1, c);
                assert(cur.drop_last() =~= cur.subrange(0, cur.len() - 1));
            }
            let nd = done.push(strip_cr(cur));
            assert forall|k: int| 0 <= k < nd.len() implies free_of(#[trigger] nd[k], c) by {
                if k < done.len() {
                    assert(nd[k] == done[k]);
                }
            }
        } else {
            assert(s.last() == s[s.len() - 1]);
            assert forall|i: int| 0 <= i < cur.push(s.last()).len() implies cur.push(s.last())[i] != c by {
                if i < cur.len() {
                    assert(cur.push(s.last())[i] == cur[i]);
                }
            }
        }
    }
}

/// The selected lines of `contents`, joined with `\n`.
pub open spec fn sliced(contents: Seq<char>, start: usize, end: Option<usize>) -> Seq<char> {
    join(selected_lines(lines_of(contents), start, end), "\n"@)
}

/// `b[k]` holds where `ls[k]` stands in `v`, for every `k`.
pub open spec fn bounds_locate(v: Seq<char>, b: Seq<(usize, usize)>, ls: Seq<Seq<char>>) -> bool {
    &&& b.len() == ls.len()
    &&& forall|k: int|
        0 <= k < b.len() ==> #[trigger] b[k].0 <= b[k].1 <= v.len() && v.subrange(
            b[k].0 as int,
            b[k].1 as int,
        ) == ls[k]
}

proof fn lemma_bounds_push(
    v: Seq<char>,
    b: Seq<(usize, usize)>,
    ls: Seq<Seq<char>>,
    x: (usize, usize),
    line: Seq<char>,
)
    requires
        bounds_locate(v, b, ls),
        x.0 <= x.1 <= v.len(),
        v.subrange(x.0 as int, x.1 as int) == line,
    ensures
        bounds_locate(v, b.push(x), ls.push(line)),
{
    let nb = b.push(x);
    let nl = ls.push(line);
    assert forall|k: int| 0 <= k < nb.len() implies #[trigger] nb[k].0 <= nb[k].1 <= v.len()
        && v.subrange(nb[k].0 as int, nb[k].1 as int) == nl[k] by {
        if k < b.len() {
            assert(nb[k] == b[k]);
            assert(nl[k] == ls[k]);
            assert(b[k].0 <= b[k].1 <= v.len());
        } else {
            assert(nb[k] == x);
            assert(nl[k] == line);
        }
    }
}

/// Where each line of `v` starts and ends.
#[verifier::spinoff_prover]
pub(crate) fn line_bounds(v: &Vec<char>) -> (r: Vec<(usize, usize)>)
    ensures
        bounds_locate(v@, r@, lines_of(v@)),
{
    let mut r: Vec<(usize, usize)> = Vec::new();
    let mut cur: usize = 0;
    let mut i: usize = 0;
    while i < v.len()
        invariant
            cur <= i <= v@.len(),
            bounds_locate(v@, r@, line_split(v@.subrange(0, i as int)).0),
            line_split(v@.subrange(0, i as int)).1 == v@.subrange(cur as int, i as int),
        decreases v@.len() - i,
    {
        let ghost before = v@.subrange(0, i as int);
        let ghost after = v@.subrange(0, i + 1);
        let ghost old_r = r@;
        assert(after.drop_last() =~= before);
        assert(after.last() == v@[i as int]);
        let ghost partial = v@.subrange(cur as int, i as int);
        let ghost done = line_split(before).0;
        let ghost old_cur = cur;
        if v[i] == '\n' {
            let mut end = i;
            if i > cur && v[i - 1] == '\r' {
                end = i - 1;
                assert(partial.last() == v@[i - 1]);
                assert(partial.drop_last() =~= v@.subrange(cur as int, end as int));
            }
            assert(v@.subrange(cur as int, end as int) == strip_cr(partial));
            r.push((cur, end));
            cur = i + 1;
            assert(v@.subrange(cur as int, i + 1) =~= seq![]);
            proof {
                lemma_bounds_push(v@, old_r, done, (old_cur, end), strip_cr(partial));
                assert(line_split(after).0 == done.push(strip_cr(partial)));
            }
        } else {
            assert(v@.subrange(cur as int, i + 1) =~= partial.push(v@[i as int]));
            assert(line_split(after).0 == done);
            assert(bounds_locate(v@, r@, line_split(after).0));
        }
        i = i + 1;
    }
    assert(v@.subrange(0, v@.len() as int) =~= v@);
    let ghost done = line_split(v@).0;
    let ghost old_r = r@;
    if cur < v.len() {
        r.push((cur, v.len()));
        proof {
            lemma_bounds_push(v@, old_r, done, (cur, v.len()), v@.subrange(cur as int, v@.len() as int));
        }
    }
    r
}

/// Pull an inclusive 1-based line range out of a file's contents.
pub fn slice_lines(contents: &str, start: usize, end: Option<usize>) -> (r: String)
    ensures
        r@ == sliced(contents@, start, end),
{
    let v = chars_of(contents);
    let bounds = line_bounds(&v);
    let ghost ls = lines_of(v@);
    let n = bounds.len();
    let lo = if start == 0 {
        0
    } else if start - 1 < n {
        start - 1
    } else {
        n
    };
    let hi = match end {
        None => n,
        Some(e) => if e < n {
            e
        } else {
            n
        },
    };
    let mut out = String::new();
    if lo > hi {
        assert(out@ =~= join(seq![], "\n"@));
        return out;
    }
    let mut k = lo;
    while k < hi
        invariant
            lo <= k <= hi <= n,
            n == bounds@.len() == ls.len(),
            ls == lines_of(v@),
            bounds_locate(v@, bounds@, ls),
            out@ == join(ls.subrange(lo as int, k as int), "\n"@),
        decreases hi - k,
    {
        let ghost prev = ls.subrange(lo as int, k as int);
        if k > lo {
            push_char(&mut out, '\n');
        }
        let (a, b) = bounds[k];
        assert(bounds@[k as int].0 <= bounds@[k as int].1 <= v@.len());
        push_range(&mut out, &v, a, b);
        k = k + 1;
        proof {
            reveal_strlit("\n");
            let now = ls.subrange(lo as int, k as int);
            assert(now.drop_last() =~= prev);
            assert(now.last() == ls[k - 1]);
            if k - 1 == lo {
                assert(out@ =~= now[0]);
            } else {
                assert(out@ =~= join(prev, "\n"@) + "\n"@ + now.last());
            }
        }
    }
    out
}

// ---------------------------------------------------------------------------
// The request a command line asks for

pub open spec fn nothing_to_explain_text() -> Seq<char> {
    "tell me what to explain, e.g. plainly \"CAP theorem\""@
}

pub open spec fn empty_range_text(file: Seq<char>) -> Seq<char> {
    file + " has nothing in that range"@
}

pub open spec fn text_of(o: Option<String>) -> Option<Seq<char>> {
    match o {
        Some(s) => Some(s@),
        None => None,
    }
}

/// The request (query, context, level) that a command line asks for, or the message
/// of the input error it causes. `contents` is the text of the file named by
/// `explain --file`.
pub open spec fn request_outcome(cli: Cli, contents: Seq<char>) -> core::result::Result<
    (Seq<char>, Option<Seq<char>>, Level),
    Seq<char>,
> {
    let level = level_of(cli.common.level);
    match cli.command {
        Some(Command::Explain { file, lines, about }) => {
            let snippet = match lines {
                None => Ok(contents),
                Some(l) => match line_range_of(l@) {
                    Err(m) => Err(m),
                    Ok((s, e)) => Ok(sliced(contents, s, e)),
                },
            };
            match snippet {
                Err(m) => Err(m),
                Ok(sn) => if trim(sn).len() == 0 {
                    Err(empty_range_text(file@))
                } else {
                    Ok((about@, Some(sn), level))
                },
            }
        },
        _ => {
            let q = trim(join(cli.query@.map_values(|p: String| p@), " "@));
            if q.len() == 0 {
                Err(nothing_to_explain_text())
            } else {
                Ok((q, None, level))
            }
        },
    }
}

/// The request the command line asks for. `file_contents` is the text of the file
/// that `explain --file` names (read by the caller); it is ignored otherwise.
pub fn build_request(cli: &Cli, file_contents: String) -> (r: Result<Request, Error>)
    requires
        !(cli.command matches Some(Command::Cache { .. })),
    ensures
        match r {
            Ok(req) => request_outcome(*cli, file_contents@) == Ok::<
                (Seq<char>, Option<Seq<char>>, Level),
                Seq<char>,
            >((req.query@, text_of(req.context), req.level)),
            Err(e) => e matches Error::Input(m) && request_outcome(*cli, file_contents@) == Err::<
                (Seq<char>, Option<Seq<char>>, Level),
                Seq<char>,
            >(m@),
        },
        cli.command matches Some(Command::Explain { lines, .. }) && lines is None ==> match r {
            Ok(req) => req.context matches Some(c) && c@ == file_contents@,
            Err(_) => trim(file_contents@).len() == 0,
        },
{
    let level = Level::from(cli.common.level);
    match &cli.command {
        Some(Command::Explain { file, lines, about }) => {
            let snippet = match lines {
                Some(spec) => match parse_line_range(spec.as_str()) {
                    Err(m) => {
                        return Err(Error::Input(m));
                    },
                    Ok((start, end)) => slice_lines(file_contents.as_str(), start, end),
                },
                None => file_contents,
            };
            let trimmed = trim_str(snippet.as_str());
            if trimmed.is_empty() {
                let mut m = file.clone();
                m.append(" has nothing in that range");
                return Err(Error::Input(m));
            }
            Ok(Request { query: about.clone(), context: Some(snippet), level })
        },
        _ => {
            let joined = join_strings(&cli.query, " ");
            let query = trim_str(joined.as_str());
            if query.is_empty() {
                return Err(
                    Error::Input(
                        String::from_str("tell me what to explain, e.g. plainly \"CAP theorem\""),
                    ),
                );
            }
            Ok(Request { query: owned(query), context: None, level })
        },
    }
}


/// Whether 1-based line `n` is asked for by `start` and `end`.
pub open spec fn line_wanted(n: int, start: usize, end: Option<usize>) -> bool {
    start <= n && match end {
        Some(e) => n <= e,
        None => true,
    }
}

/// Slicing keeps exactly the lines asked for, in order: the result is those lines of
/// `contents` (as `str::lines` splits it) joined by `\n`, where line `n` (1-based)
/// is kept exactly when `start <= n` and, when an end is given, `n <= end`; an end
/// past the last line keeps through the last line.
pub proof fn slicing_keeps_exactly_the_lines_asked_for(
    contents: Seq<char>,
    start: usize,
    end: Option<usize>,
)
    ensures
        exists|kept: Seq<Seq<char>>|
            {
                let ls = lines_of(contents);
                let first = if start == 0 { 1 } else { start as int };
                &&& #[trigger] join(kept, "\n"@) == sliced(contents, start, end)
                &&& forall|j: int|
                    0 <= j < kept.len() ==> first + j <= ls.len() && line_wanted(first + j, start, end)
                        && kept[j] == ls[first + j - 1]
                &&& forall|n: int|
                    1 <= n <= ls.len() && line_wanted(n, start, end) ==> first <= n < first
                        + kept.len()
            },
{
    let ls = lines_of(contents);
    let kept = selected_lines(ls, start, end);
    let first = if start == 0 { 1 } else { start as int };
    assert(join(kept, "\n"@) == sliced(contents, start, end));
}

/// `explain --file` sends the file's code as the request's context: without
/// `--lines` the whole file, with `--lines` the lines asked for; the query is the
/// `--about` text and the level the one asked for. A context that is blank (only
/// whitespace) is refused with the file's name, and a line range that does not parse
/// is refused with its message.
pub proof fn the_file_s_code_is_the_context(
    cli: Cli,
    file: String,
    lines: Option<String>,
    about: String,
    contents: Seq<char>,
)
    requires
        cli.command == Some(Command::Explain { file, lines, about }),
    ensures
        ({
            let level = level_of(cli.common.level);
            match lines {
                None => request_outcome(cli, contents) == if trim(contents).len() == 0 {
                    Err::<(Seq<char>, Option<Seq<char>>, Level), Seq<char>>(empty_range_text(file@))
                } else {
                    Ok((about@, Some(contents), level))
                },
                Some(l) => match line_range_of(l@) {
                    Err(m) => request_outcome(cli, contents) == Err::<
                        (Seq<char>, Option<Seq<char>>, Level),
                        Seq<char>,
                    >(m),
                    Ok((s, e)) => request_outcome(cli, contents) == if trim(
                        sliced(contents, s, e),
                    ).len() == 0 {
                        Err::<(Seq<char>, Option<Seq<char>>, Level), Seq<char>>(empty_range_text(file@))
                    } else {
                        Ok((about@, Some(sliced(contents, s, e)), level))
                    },
                },
            }
        }),
{
}

} // verus!
