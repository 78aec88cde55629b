//! WAF-lite heuristic filtering.
//!
//! A lightweight, pattern-matching web application filter that inspects the
//! request path, query string, selected headers and body for common
//! SQL-injection, XSS and path-traversal signatures. It is a first-line
//! traffic filter, not a full WAF.
//!
//! The inspection targets are the original request path, the raw query
//! string, the headers User-Agent, Referer, Cookie and X-Forwarded-For, and
//! the body, up to a cap, when its content type is `application/json` or
//! `application/x-www-form-urlencoded`.
//!
//! The patterns are regular expressions of the `regex` crate. Whether a
//! pattern compiles, and which texts it matches, is that crate's business and
//! goes by the names `regex_compiles` and `regex_language` here.

pub mod laws;

use vstd::prelude::*;
use vstd::string::*;

use crate::headers;
use crate::headers::read;
use crate::text;
use crate::text::{ascii_lower, begins_with, same, utf8_lossy};

verus! {

broadcast use crate::text::lemma_texts_push;

// ---------------------------------------------------------------------------
// Regular expressions
// ---------------------------------------------------------------------------

/// A compiled regular expression of the `regex` crate.
#[verifier::external_type_specification]
#[verifier::external_body]
pub struct ExRegex(regex::Regex);

/// Whether `regex::Regex::new` accepts the pattern.
pub uninterp spec fn regex_compiles(pattern: Seq<char>) -> bool;

/// The texts in which `regex::Regex::is_match` finds the pattern.
pub uninterp spec fn regex_language(pattern: Seq<char>) -> Set<Seq<char>>;

/// The pattern that a compiled regular expression was made from.
pub uninterp spec fn regex_source(re: regex::Regex) -> Seq<char>;

/// `regex::Regex::new`: compiles the pattern, or gives up on one that it does
/// not accept. The compiled expression remembers the pattern.
#[verifier::external_body]
fn compile_regex(pattern: &str) -> (r: Option<regex::Regex>)
    ensures
        r is Some == regex_compiles(pattern@),
        r matches Some(re) ==> regex_source(re) == pattern@,
{
    regex::Regex::new(pattern).ok()
}

/// `regex::Regex::is_match`: whether the pattern is found anywhere in the
/// text. It depends on the pattern and the text alone.
#[verifier::external_body]
fn regex_is_match(re: &regex::Regex, value: &str) -> (r: bool)
    ensures
        r == regex_language(regex_source(*re)).contains(value@),
{
    re.is_match(value)
}

/// `regex::Regex::as_str`: the pattern, as it was given.
#[verifier::external_body]
fn regex_pattern(re: &regex::Regex) -> (r: String)
    ensures
        r@ == regex_source(*re),
{
    re.as_str().to_string()
}

// ---------------------------------------------------------------------------
// Filters
// ---------------------------------------------------------------------------

/// The filter category a matched pattern belongs to.
#[derive(Debug, Clone, Copy, PartialEq, Eq, Structural)]
pub enum WafFilter {
    Sqli,
    Xss,
    PathTraversal,
}

/// The inspection target where a match was found.
#[derive(Debug, Clone, Copy, PartialEq, Eq, Structural)]
pub enum WafTarget {
    Path,
    Query,
    Header,
    Body,
}

/// The name of a filter category.
pub open spec fn filter_name(f: WafFilter) -> Seq<char> {
    match f {
        WafFilter::Sqli => "sqli"@,
        WafFilter::Xss => "xss"@,
        WafFilter::PathTraversal => "path_traversal"@,
    }
}

impl WafFilter {
    /// The name of the category.
    pub fn as_str(&self) -> (r: &'static str)
        ensures
            r@ == filter_name(*self),
    {
        match self {
            WafFilter::Sqli => "sqli",
            WafFilter::Xss => "xss",
            WafFilter::PathTraversal => "path_traversal",
        }
    }
}

impl WafTarget {
    /// The name of the target.
    pub fn as_str(&self) -> (r: &'static str)
        ensures
            r@ == (match *self {
                WafTarget::Path => "path"@,
                WafTarget::Query => "query"@,
                WafTarget::Header => "header"@,
                WafTarget::Body => "body"@,
            }),
    {
        match self {
            WafTarget::Path => "path",
            WafTarget::Query => "query",
            WafTarget::Header => "header",
            WafTarget::Body => "body",
        }
    }
}

/// A WAF match result: the filter, pattern, target, and a truncated
/// value preview for logging. The preview carries at most 64 bytes of the
/// value, never the full payload of a long one.
#[derive(Debug, Clone)]
pub struct WafMatch {
    pub filter: WafFilter,
    pub pattern: String,
    pub target: WafTarget,
    pub value_preview: String,
}

/// Built-in SQLi signatures (case-insensitive).
pub open spec fn sqli_patterns() -> Seq<Seq<char>> {
    seq![
        r"(?i)union\s+select"@,
        r"(?i)\bor\s+1\s*=\s*1\b"@,
        r"(?i)'\s*;\s*drop\s+table"@,
        r"(?i)'\s*;\s*delete\s+from"@,
        r"(?i)'\s*;\s*insert\s+into"@,
        r"(?i)'\s*;\s*update\s+set"@,
        r"(?i)--\s*$"@,
        r"(?i)--\s"@,
        r"(?i)xp_cmdshell"@,
        r"(?i)0x[0-9a-f]{8,}\b"@,
        r"(?i)'\s*or\s*'"@,
        r"(?i)'\s*and\s*'"@,
        r"(?i);\s*select\s+"@,
        r"(?i)\bexec\s*\("@,
        r"(?i)\bwaitfor\s+delay\b"@,
        r"(?i)\bsleep\s*\("@,
        r"(?i)\bbenchmark\s*\("@,
        r"(?i)\bload_file\s*\("@,
        r"(?i)\binto\s+outfile\b"@,
        r"(?i)\bgroup\s+by\s+\d+"@,
        r"(?i)'\s*=\s*'"@,
    ]
}

/// Built-in XSS signatures (case-insensitive).
pub open spec fn xss_patterns() -> Seq<Seq<char>> {
    seq![
        r"(?i)<script"@,
        r"(?i)javascript:"@,
        r"(?i)onerror\s*="@,
        r"(?i)onload\s*="@,
        r"(?i)onclick\s*="@,
        r"(?i)onmouseover\s*="@,
        r"(?i)<iframe"@,
        r"(?i)<object"@,
        r"(?i)<embed"@,
        r"(?i)document\.cookie"@,
        r"(?i)eval\s*\("@,
        r"(?i)alert\s*\("@,
        r"(?i)<img[^>]+src\s*="@,
        r"(?i)<svg[^>]+onload"@,
        r"(?i)String\.fromCharCode"@,
        r"(?i)\\x3cscript"@,
        r"(?i)&lt;script"@,
        r"(?i)<body[^>]+onload"@,
        r"(?i)expression\s*\("@,
    ]
}

/// Built-in path-traversal signatures.
pub open spec fn path_traversal_patterns() -> Seq<Seq<char>> {
    seq![
        r"\.\./"@,
        r"\.\.\\"@,
        r"(?i)%2e%2e%2f"@,
        r"(?i)%2e%2e/"@,
        r"(?i)%2e%2e%5c"@,
        r"\.\.%2f"@,
        r"(?i)\.\.//"@,
        r"(?i)\.\.\\"@,
        r"(?i)\.\.;/"@,
        r"%00"@,
        r"(?i)%252e%252e%252f"@,
        r"(?i)/etc/passwd"@,
        r"(?i)/etc/shadow"@,
        r"(?i)c:\\windows\\"@,
        r"(?i)\\windows\\win\.ini"@,
        r"(?i)/proc/self/"@,
    ]
}

/// The built-in signatures of a category.
pub open spec fn builtin(filter: WafFilter) -> Seq<Seq<char>> {
    match filter {
        WafFilter::Sqli => sqli_patterns(),
        WafFilter::Xss => xss_patterns(),
        WafFilter::PathTraversal => path_traversal_patterns(),
    }
}

/// The built-in signatures of a category.
pub fn builtin_patterns(filter: WafFilter) -> (r: Vec<&'static str>)
    ensures
        r@.map_values(|s: &'static str| s@) == builtin(filter),
{
    let r: Vec<&'static str> = match filter {
        WafFilter::Sqli => {
            vec![
                r"(?i)union\s+select",
                r"(?i)\bor\s+1\s*=\s*1\b",
                r"(?i)'\s*;\s*drop\s+table",
                r"(?i)'\s*;\s*delete\s+from",
                r"(?i)'\s*;\s*insert\s+into",
                r"(?i)'\s*;\s*update\s+set",
                r"(?i)--\s*$",
                r"(?i)--\s",
                r"(?i)xp_cmdshell",
                r"(?i)0x[0-9a-f]{8,}\b",
                r"(?i)'\s*or\s*'",
                r"(?i)'\s*and\s*'",
                r"(?i);\s*select\s+",
                r"(?i)\bexec\s*\(",
                r"(?i)\bwaitfor\s+delay\b",
                r"(?i)\bsleep\s*\(",
                r"(?i)\bbenchmark\s*\(",
                r"(?i)\bload_file\s*\(",
                r"(?i)\binto\s+outfile\b",
                r"(?i)\bgroup\s+by\s+\d+",
                r"(?i)'\s*=\s*'",
            ]
        },
        WafFilter::Xss => {
            vec![
                r"(?i)<script",
                r"(?i)javascript:",
                r"(?i)onerror\s*=",
                r"(?i)onload\s*=",
                r"(?i)onclick\s*=",
                r"(?i)onmouseover\s*=",
                r"(?i)<iframe",
                r"(?i)<object",
                r"(?i)<embed",
                r"(?i)document\.cookie",
                r"(?i)eval\s*\(",
                r"(?i)alert\s*\(",
                r"(?i)<img[^>]+src\s*=",
                r"(?i)<svg[^>]+onload",
                r"(?i)String\.fromCharCode",
                r"(?i)\\x3cscript",
                r"(?i)&lt;script",
                r"(?i)<body[^>]+onload",
                r"(?i)expression\s*\(",
            ]
        },
        WafFilter::PathTraversal => {
            vec![
                r"\.\./",
                r"\.\.\\",
                r"(?i)%2e%2e%2f",
                r"(?i)%2e%2e/",
                r"(?i)%2e%2e%5c",
                r"\.\.%2f",
                r"(?i)\.\.//",
                r"(?i)\.\.\\",
                r"(?i)\.\.;/",
                r"%00",
                r"(?i)%252e%252e%252f",
                r"(?i)/etc/passwd",
                r"(?i)/etc/shadow",
                r"(?i)c:\\windows\\",
                r"(?i)\\windows\\win\.ini",
                r"(?i)/proc/self/",
            ]
        },
    };
    assert(r@.map_values(|s: &'static str| s@) =~= builtin(filter));
    r
}

/// The WAF block of a route.
#[derive(Debug, Clone, PartialEq, Eq)]
pub struct RouteWaf {
    pub enabled: bool,
    /// The categories to check; none named: all of them.
    pub filters: Vec<String>,
    /// More patterns, checked under every enabled category.
    pub custom_patterns: Vec<String>,
    /// How much of a body is inspected (0 = none of it).
    pub max_body_inspect_bytes: u64,
    /// Log matches and let the request go on.
    pub dry_run: bool,
}

/// The category of a name, if it is one.
pub open spec fn filter_of(name: Seq<char>) -> Option<WafFilter> {
    if name == "sqli"@ {
        Some(WafFilter::Sqli)
    } else if name == "xss"@ {
        Some(WafFilter::Xss)
    } else if name == "path_traversal"@ {
        Some(WafFilter::PathTraversal)
    } else {
        None
    }
}

/// The categories that the first `n` names stand for; what is no category
/// is left out.
pub open spec fn named_filters(names: Seq<Seq<char>>, n: nat) -> Seq<WafFilter>
    decreases n,
{
    if n == 0 {
        seq![]
    } else {
        let before = named_filters(names, (n - 1) as nat);
        match filter_of(names[n - 1]) {
            Some(f) => before.push(f),
            None => before,
        }
    }
}

/// The categories that are checked.
pub open spec fn enabled_filters(names: Seq<Seq<char>>) -> Seq<WafFilter> {
    if names.len() == 0 {
        seq![WafFilter::Sqli, WafFilter::Xss, WafFilter::PathTraversal]
    } else {
        named_filters(names, names.len())
    }
}

/// Those of the patterns that compile, in order.
pub open spec fn compiling(patterns: Seq<Seq<char>>, n: nat) -> Seq<Seq<char>>
    decreases n,
{
    if n == 0 {
        seq![]
    } else {
        let before = compiling(patterns, (n - 1) as nat);
        if regex_compiles(patterns[n - 1]) {
            before.push(patterns[n - 1])
        } else {
            before
        }
    }
}

/// The patterns of a category: its own, then the custom ones.
pub open spec fn category_patterns(filter: WafFilter, custom: Seq<Seq<char>>) -> Seq<Seq<char>> {
    let all = builtin(filter) + custom;
    compiling(all, all.len())
}

/// One category with its compiled patterns.
struct WafFilterEntry {
    filter: WafFilter,
    patterns: Vec<regex::Regex>,
}

/// A category with its patterns.
#[verifier::ext_equal]
pub struct EntryView {
    pub filter: WafFilter,
    pub patterns: Seq<Seq<char>>,
}

/// The patterns of compiled expressions.
pub open spec fn sources(v: Seq<regex::Regex>) -> Seq<Seq<char>> {
    v.map_values(|re: regex::Regex| regex_source(re))
}

impl View for WafFilterEntry {
    type V = EntryView;

    closed spec fn view(&self) -> EntryView {
        EntryView { filter: self.filter, patterns: sources(self.patterns@) }
    }
}

/// A compiled WAF generation: the patterns of each enabled filter category.
/// Built once per config generation and reused across requests.
pub struct WafGeneration {
    filters: Vec<WafFilterEntry>,
    max_body_inspect_bytes: u64,
    dry_run: bool,
}

/// The entries of a configuration.
pub open spec fn entries_of(waf: RouteWaf) -> Seq<EntryView> {
    enabled_filters(text::texts(waf.filters@)).map_values(
        |f: WafFilter|
            EntryView {
                filter: f,
                patterns: category_patterns(f, text::texts(waf.custom_patterns@)),
            },
    )
}

/// What `truncate_preview` makes of a value: the value itself up to 64 bytes
/// of UTF-8, or else as many whole characters as fit in 64 bytes, and three
/// dots.
pub open spec fn is_preview(value: Seq<char>, preview: Seq<char>) -> bool {
    if utf8_len(value) <= 64 {
        preview == value
    } else {
        exists|n: int| #[trigger] cuts_at(value, n) && preview == value.take(n) + "..."@
    }
}

/// Whether `n` is the largest number of characters that fit in 64 bytes.
pub open spec fn cuts_at(value: Seq<char>, n: int) -> bool {
    &&& 0 <= n < value.len()
    &&& utf8_len(value.take(n)) <= 64
    &&& utf8_len(value.take(n + 1)) > 64
}

/// The number of bytes of a character in UTF-8.
pub open spec fn char_width(c: char) -> nat {
    let u = c as u32;
    if u <= 0x7f {
        1
    } else if u <= 0x7ff {
        2
    } else if u <= 0xffff {
        3
    } else {
        4
    }
}

/// The number of bytes of a text in UTF-8.
pub open spec fn utf8_len(s: Seq<char>) -> nat
    decreases s.len(),
{
    if s.len() == 0 {
        0
    } else {
        utf8_len(s.drop_last()) + char_width(s.last())
    }
}

/// A prefix is no longer than the whole.
proof fn lemma_utf8_len_grows(s: Seq<char>, n: int)
    requires
        0 <= n <= s.len(),
    ensures
        utf8_len(s.take(n)) <= utf8_len(s),
    decreases s.len() - n,
{
    if n < s.len() {
        lemma_utf8_len_grows(s, n + 1);
        assert(s.take(n + 1).drop_last() =~= s.take(n));
    } else {
        assert(s.take(n) =~= s);
    }
}

/// Truncate a value to 64 bytes of whole characters for safe logging.
pub fn truncate_preview(s: &str) -> (r: String)
    ensures
        is_preview(s@, r@),
{
    let v = text::chars(s);
    let mut n: usize = 0;
    let mut bytes: usize = 0;
    assert(v@.take(0) =~= seq![]);
    while n < v.len()
        invariant
            n <= v.len(),
            v@ == s@,
            bytes == utf8_len(v@.take(n as int)),
            bytes <= 64,
        decreases v.len() - n,
    {
        let u: u32 = v[n] as u32;
        let width: usize = if u <= 0x7f {
            1
        } else if u <= 0x7ff {
            2
        } else if u <= 0xffff {
            3
        } else {
            4
        };
        assert(v@.take(n + 1).drop_last() =~= v@.take(n as int));
        assert(v@.take(n + 1).last() == v@[n as int]);
        if bytes + width > 64 {
            let mut r = text::from_chars(&v, 0, n);
            r.append("...");
            proof {
                lemma_utf8_len_grows(v@, n + 1);
                assert(v@.subrange(0, n as int) =~= v@.take(n as int));
                assert(cuts_at(s@, n as int));
            }
            return r;
        }
        bytes = bytes + width;
        n = n + 1;
    }
    assert(v@.take(v.len() as int) =~= v@);
    s.to_owned()
}

/// The first entry and pattern that match a value, entries in order and the
/// patterns of an entry in order.
pub open spec fn first_match(entries: Seq<EntryView>, value: Seq<char>) -> Option<
    (WafFilter, Seq<char>),
>
    decreases entries.len(),
{
    if entries.len() == 0 {
        None
    } else {
        match first_pattern(entries[0].patterns, value) {
            Some(p) => Some((entries[0].filter, p)),
            None => first_match(entries.skip(1), value),
        }
    }
}

/// The first of the patterns that matches a value.
pub open spec fn first_pattern(patterns: Seq<Seq<char>>, value: Seq<char>) -> Option<Seq<char>>
    decreases patterns.len(),
{
    if patterns.len() == 0 {
        None
    } else if regex_language(patterns[0]).contains(value) {
        Some(patterns[0])
    } else {
        first_pattern(patterns.skip(1), value)
    }
}

/// Whether `m` reports what the entries find in a value.
pub open spec fn reports(
    m: Option<WafMatch>,
    entries: Seq<EntryView>,
    target: WafTarget,
    value: Seq<char>,
) -> bool {
    match (m, first_match(entries, value)) {
        (Some(m), Some(found)) => {
            &&& m.filter == found.0
            &&& m.pattern@ == found.1
            &&& m.target == target
            &&& is_preview(value, m.value_preview@)
        },
        (None, None) => true,
        _ => false,
    }
}

/// A part of a request head: where it stands, and its text if it is there.
pub struct HeadPart {
    pub target: WafTarget,
    pub value: Option<Seq<char>>,
}

/// The parts of a request head in the order in which they are inspected.
pub open spec fn head_parts(
    path: &str,
    query: Option<&str>,
    user_agent: Option<&str>,
    referer: Option<&str>,
    cookie: Option<&str>,
    forwarded_for: Option<&str>,
) -> Seq<HeadPart> {
    seq![
        HeadPart { target: WafTarget::Path, value: Some(path@) },
        HeadPart { target: WafTarget::Query, value: text::opt_str(query) },
        HeadPart { target: WafTarget::Header, value: text::opt_str(user_agent) },
        HeadPart { target: WafTarget::Header, value: text::opt_str(referer) },
        HeadPart { target: WafTarget::Header, value: text::opt_str(cookie) },
        HeadPart { target: WafTarget::Header, value: text::opt_str(forwarded_for) },
    ]
}

/// Whether the entries find nothing in a part.
pub open spec fn part_clean(entries: Seq<EntryView>, p: HeadPart) -> bool {
    match p.value {
        Some(v) => first_match(entries, v) is None,
        None => true,
    }
}

/// Whether `m` reports the first of the parts in which the entries find
/// something.
pub open spec fn reports_first(
    m: Option<WafMatch>,
    entries: Seq<EntryView>,
    parts: Seq<HeadPart>,
) -> bool {
    match m {
        Some(_) => exists|i: int|
            {
                &&& 0 <= i < parts.len()
                &&& !part_clean(entries, #[trigger] parts[i])
                &&& reports(m, entries, parts[i].target, parts[i].value->Some_0)
                &&& forall|j: int| 0 <= j < i ==> part_clean(entries, #[trigger] parts[j])
            },
        None => forall|j: int| 0 <= j < parts.len() ==> part_clean(entries, #[trigger] parts[j]),
    }
}

impl WafGeneration {
    /// The enabled categories with their patterns.
    pub closed spec fn entries(self) -> Seq<EntryView> {
        self.filters@.map_values(|e: WafFilterEntry| e@)
    }

    /// The body inspection cap.
    pub closed spec fn body_cap(self) -> u64 {
        self.max_body_inspect_bytes
    }

    /// Whether matches are only logged.
    pub closed spec fn only_logs(self) -> bool {
        self.dry_run
    }

    fn compile_category(filter: WafFilter, custom: &Vec<String>) -> (e: WafFilterEntry)
        ensures
            e@ == (EntryView {
                filter,
                patterns: category_patterns(filter, text::texts(custom@)),
            }),
    {
        let own = builtin_patterns(filter);
        let ghost all = builtin(filter) + text::texts(custom@);
        let mut patterns: Vec<regex::Regex> = Vec::new();
        assert(sources(patterns@) =~= seq![]);
        let mut i: usize = 0;
        while i < own.len()
            invariant
                i <= own.len(),
                own@.map_values(|s: &'static str| s@) == builtin(filter),
                all == builtin(filter) + text::texts(custom@),
                sources(patterns@) == compiling(all, i as nat),
            decreases own.len() - i,
        {
            assert(builtin(filter)[i as int] == own@[i as int]@);
            assert(all[i as int] == own@[i as int]@);
            if let Some(re) = compile_regex(own[i]) {
                assert(sources(patterns@.push(re)) =~= sources(patterns@).push(regex_source(re)));
                patterns.push(re);
            }
            i = i + 1;
        }
        assert(own@.len() == builtin(filter).len());
        let mut j: usize = 0;
        while j < custom.len()
            invariant
                j <= custom.len(),
                all == builtin(filter) + text::texts(custom@),
                sources(patterns@) == compiling(all, (builtin(filter).len() + j) as nat),
            decreases custom.len() - j,
        {
            assert(all[builtin(filter).len() + j] == custom@[j as int]@);
            if let Some(re) = compile_regex(custom[j].as_str()) {
                assert(sources(patterns@.push(re)) =~= sources(patterns@).push(regex_source(re)));
                patterns.push(re);
            }
            j = j + 1;
        }
        assert(all.len() == builtin(filter).len() + custom@.len());
        WafFilterEntry { filter, patterns }
    }

    fn resolve_filters(names: &Vec<String>) -> (r: Vec<WafFilter>)
        ensures
            r@ == enabled_filters(text::texts(names@)),
    {
        if names.len() == 0 {
            let r = vec![WafFilter::Sqli, WafFilter::Xss, WafFilter::PathTraversal];
            assert(r@ =~= enabled_filters(text::texts(names@)));
            return r;
        }
        let mut r: Vec<WafFilter> = Vec::new();
        let mut i: usize = 0;
        while i < names.len()
            invariant
                i <= names.len(),
                r@ == named_filters(text::texts(names@), i as nat),
            decreases names.len() - i,
        {
            let name = names[i].as_str();
            assert(text::texts(names@)[i as int] == name@);
            if same(name, "sqli") {
                r.push(WafFilter::Sqli);
            } else if same(name, "xss") {
                r.push(WafFilter::Xss);
            } else if same(name, "path_traversal") {
                r.push(WafFilter::PathTraversal);
            }
            i = i + 1;
        }
        r
    }

    /// Build a WAF generation from the route config. Returns `None` when
    /// the WAF is disabled (no inspection should run).
    pub fn from_config(waf: &RouteWaf) -> (r: Option<Self>)
        ensures
            match r {
                Some(g) => {
                    &&& waf.enabled
                    &&& g.entries() == entries_of(*waf)
                    &&& laws::looks_for(g.entries(), *waf)
                    &&& g.body_cap() == waf.max_body_inspect_bytes
                    &&& g.only_logs() == waf.dry_run
                },
                None => !waf.enabled,
            },
    {
        proof {
            laws::law_generation_looks_for_what_is_asked(*waf);
        }
        if !waf.enabled {
            return None;
        }
        let names = Self::resolve_filters(&waf.filters);
        let mut filters: Vec<WafFilterEntry> = Vec::new();
        let mut i: usize = 0;
        while i < names.len()
            invariant
                i <= names.len(),
                names@ == enabled_filters(text::texts(waf.filters@)),
                filters.len() == i,
                forall|j: int|
                    0 <= j < i ==> (#[trigger] filters@[j])@ == entries_of(*waf)[j],
            decreases names.len() - i,
        {
            let e = Self::compile_category(names[i], &waf.custom_patterns);
            assert(e@ == entries_of(*waf)[i as int]);
            filters.push(e);
            i = i + 1;
        }
        assert(filters@.map_values(|e: WafFilterEntry| e@) =~= entries_of(*waf));
        Some(
            WafGeneration {
                filters,
                max_body_inspect_bytes: waf.max_body_inspect_bytes,
                dry_run: waf.dry_run,
            },
        )
    }

    /// Whether this WAF generation is in dry-run (audit-log-only) mode.
    pub fn dry_run(&self) -> (r: bool)
        ensures
            r == self.only_logs(),
    {
        self.dry_run
    }

    /// The configured body inspection byte cap (0 = no body inspection).
    pub fn max_body_inspect_bytes(&self) -> (r: u64)
        ensures
            r == self.body_cap(),
    {
        self.max_body_inspect_bytes
    }

    /// Inspect a single string value against all enabled filter patterns.
    /// Returns the first match (if any).
    pub fn inspect_value(&self, target: WafTarget, value: &str) -> (r: Option<WafMatch>)
        ensures
            reports(r, self.entries(), target, value@),
    {
        let ghost all = self.entries();
        let mut i: usize = 0;
        assert(all.skip(0) =~= all);
        while i < self.filters.len()
            invariant
                i <= self.filters.len(),
                all == self.entries(),
                all.len() == self.filters@.len(),
                first_match(all, value@) == first_match(all.skip(i as int), value@),
            decreases self.filters.len() - i,
        {
            let entry = &self.filters[i];
            assert(all.skip(i as int)[0] == self.filters@[i as int]@);
            assert(all.skip(i as int).skip(1) =~= all.skip(i + 1));
            let ghost pats = sources(entry.patterns@);
            let mut j: usize = 0;
            assert(pats.skip(0) =~= pats);
            while j < entry.patterns.len()
                invariant
                    j <= entry.patterns.len(),
                    pats == sources(entry.patterns@),
                    all == self.entries(),
                    i < self.filters@.len(),
                    all.len() == self.filters@.len(),
                    *entry == self.filters@[i as int],
                    first_match(all, value@) == first_match(all.skip(i as int), value@),
                    all.skip(i as int)[0] == entry@,
                    first_pattern(pats, value@) == first_pattern(pats.skip(j as int), value@),
                decreases entry.patterns.len() - j,
            {
                let re = &entry.patterns[j];
                assert(pats.skip(j as int)[0] == regex_source(*re));
                assert(pats.skip(j as int).skip(1) =~= pats.skip(j + 1));
                if regex_is_match(re, value) {
                    let m = WafMatch {
                        filter: entry.filter,
                        pattern: regex_pattern(re),
                        target,
                        value_preview: truncate_preview(value),
                    };
                    return Some(m);
                }
                j = j + 1;
            }
            i = i + 1;
        }
        None
    }

    fn inspect_part(&self, target: WafTarget, value: Option<&str>) -> (r: Option<WafMatch>)
        ensures
            match text::opt_str(value) {
                Some(v) => reports(r, self.entries(), target, v),
                None => r is None,
            },
    {
        match value {
            Some(v) => self.inspect_value(target, v),
            None => None,
        }
    }

    /// Inspect the request head: path, query string, and the values of the
    /// headers User-Agent, Referer, Cookie and X-Forwarded-For, in this
    /// order. Returns the first match (if any). A header value that is not
    /// visible ASCII is passed over.
    pub fn inspect_head(
        &self,
        path: &str,
        query: Option<&str>,
        user_agent: Option<&str>,
        referer: Option<&str>,
        cookie: Option<&str>,
        forwarded_for: Option<&str>,
    ) -> (r: Option<WafMatch>)
        ensures
            reports_first(
                r,
                self.entries(),
                head_parts(
                    path,
                    query,
                    headers::read_value(user_agent),
                    headers::read_value(referer),
                    headers::read_value(cookie),
                    headers::read_value(forwarded_for),
                ),
            ),
            laws::reports_head(
                r,
                self.entries(),
                path,
                query,
                user_agent,
                referer,
                cookie,
                forwarded_for,
            ),
    {
        let r = self.search_head(path, query, user_agent, referer, cookie, forwarded_for);
        proof {
            laws::law_whole_head_is_inspected(
                r,
                self.entries(),
                path,
                query,
                user_agent,
                referer,
                cookie,
                forwarded_for,
            );
        }
        r
    }

    fn search_head(
        &self,
        path: &str,
        query: Option<&str>,
        user_agent: Option<&str>,
        referer: Option<&str>,
        cookie: Option<&str>,
        forwarded_for: Option<&str>,
    ) -> (r: Option<WafMatch>)
        ensures
            reports_first(
                r,
                self.entries(),
                head_parts(
                    path,
                    query,
                    headers::read_value(user_agent),
                    headers::read_value(referer),
                    headers::read_value(cookie),
                    headers::read_value(forwarded_for),
                ),
            ),
    {
        let user_agent = read(user_agent);
        let referer = read(referer);
        let cookie = read(cookie);
        let forwarded_for = read(forwarded_for);
        let ghost parts = head_parts(path, query, user_agent, referer, cookie, forwarded_for);
        let ghost entries = self.entries();
        let m = self.inspect_part(WafTarget::Path, Some(path));
        if m.is_some() {
            assert(!part_clean(entries, parts[0]));
            return m;
        }
        let m = self.inspect_part(WafTarget::Query, query);
        if m.is_some() {
            assert(!part_clean(entries, parts[1]));
            return m;
        }
        let m = self.inspect_part(WafTarget::Header, user_agent);
        if m.is_some() {
            assert(!part_clean(entries, parts[2]));
            return m;
        }
        let m = self.inspect_part(WafTarget::Header, referer);
        if m.is_some() {
            assert(!part_clean(entries, parts[3]));
            return m;
        }
        let m = self.inspect_part(WafTarget::Header, cookie);
        if m.is_some() {
            assert(!part_clean(entries, parts[4]));
            return m;
        }
        let m = self.inspect_part(WafTarget::Header, forwarded_for);
        if m.is_some() {
            assert(!part_clean(entries, parts[5]));
        }
        m
    }

    /// Inspect a buffered body slice as text. Returns the first match (if
    /// any).
    pub fn inspect_body_slice(&self, body: &[u8]) -> (r: Option<WafMatch>)
        ensures
            reports(r, self.entries(), WafTarget::Body, text::lossy_text(body@)),
            r is Some <==> laws::is_suspect(self.entries(), text::lossy_text(body@)),
    {
        let t = utf8_lossy(body);
        let r = self.inspect_value(WafTarget::Body, t.as_str());
        proof {
            laws::law_finding_is_reported(
                r,
                self.entries(),
                WafTarget::Body,
                text::lossy_text(body@),
            );
        }
        r
    }
}

// ---------------------------------------------------------------------------
// Bodies
// ---------------------------------------------------------------------------

/// Whether a content type signals a body worth inspecting: JSON or
/// form-urlencoded.
pub open spec fn inspected_type(content_type: Option<&str>) -> bool {
    match content_type {
        Some(ct) => {
            ||| "application/json"@.is_prefix_of(text::lower(ct@))
            ||| "application/x-www-form-urlencoded"@.is_prefix_of(text::lower(ct@))
        },
        None => false,
    }
}

/// The content types that signal a body worth inspecting: JSON or
/// form-urlencoded. `content_type` is the value of the Content-Type header; one
/// that is not visible ASCII signals nothing.
pub fn should_inspect_body(content_type: Option<&str>) -> (r: bool)
    ensures
        r == inspected_type(headers::read_value(content_type)),
{
    match read(content_type) {
        Some(ct) => {
            let ct = ascii_lower(ct);
            begins_with(ct.as_str(), "application/json") || begins_with(
                ct.as_str(),
                "application/x-www-form-urlencoded",
            )
        },
        None => false,
    }
}

/// The part of a body that is inspected: the first `cap` bytes as they come
/// in.
#[derive(Debug)]
pub struct BodyPrefix {
    cap: u64,
    buf: Vec<u8>,
}

/// How much of `len` more bytes still goes into a prefix of `have` bytes
/// under a cap.
pub open spec fn prefix_room(cap: u64, have: nat, len: nat) -> nat {
    if have + len <= cap {
        len
    } else if have <= cap {
        (cap - have) as nat
    } else {
        0
    }
}

impl BodyPrefix {
    /// The bytes taken so far.
    pub closed spec fn taken(self) -> Seq<u8> {
        self.buf@
    }

    /// How many bytes are taken at most.
    pub closed spec fn limit(self) -> u64 {
        self.cap
    }

    /// An empty prefix under the cap of a generation.
    pub fn new(generation: &WafGeneration) -> (p: Self)
        ensures
            p.taken() == Seq::<u8>::empty(),
            p.limit() == generation.body_cap(),
    {
        BodyPrefix { cap: generation.max_body_inspect_bytes(), buf: Vec::new() }
    }

    /// Whether the prefix is as long as it may get: nothing more is read for
    /// inspection.
    pub fn is_full(&self) -> (r: bool)
        ensures
            r == (self.taken().len() >= self.limit()),
    {
        self.buf.len() as u64 >= self.cap
    }

    /// Takes in the next bytes of the body, and says how many of them fit.
    /// What does not fit is to be forwarded behind the prefix.
    pub fn push(&mut self, data: &[u8]) -> (n: usize)
        ensures
            n == prefix_room(old(self).limit(), old(self).taken().len(), data@.len()),
            final(self).taken() == old(self).taken() + data@.take(n as int),
            final(self).limit() == old(self).limit(),
    {
        let have: u64 = self.buf.len() as u64;
        let room: u64 = self.cap.saturating_sub(have);
        let n: usize = if data.len() as u64 <= room {
            data.len()
        } else {
            room as usize
        };
        let ghost start = self.buf@;
        let mut i: usize = 0;
        assert(start + data@.take(0) =~= start);
        while i < n
            invariant
                i <= n <= data.len(),
                self.cap == old(self).cap,
                self.buf@ == start + data@.take(i as int),
            decreases n - i,
        {
            self.buf.push(data[i]);
            i = i + 1;
            assert(start + data@.take(i as int) =~= (start + data@.take(i - 1)).push(data@[i - 1]));
        }
        n
    }

    /// The bytes taken so far.
    pub fn bytes(&self) -> (r: &Vec<u8>)
        ensures
            r@ == self.taken(),
    {
        &self.buf
    }

    /// What the generation finds in the prefix. Under a cap of zero nothing
    /// is inspected.
    pub fn inspect(&self, generation: &WafGeneration) -> (r: Option<WafMatch>)
        ensures
            if self.limit() == 0 {
                r is None
            } else {
                reports(r, generation.entries(), WafTarget::Body, text::lossy_text(self.taken()))
            },
            self.limit() > 0 ==> (r is Some <==> laws::is_suspect(
                generation.entries(),
                text::lossy_text(self.taken()),
            )),
    {
        if self.cap == 0 {
            return None;
        }
        generation.inspect_body_slice(self.buf.as_slice())
    }
}

// ---------------------------------------------------------------------------
// Laws
// ---------------------------------------------------------------------------

/// A preview never carries more than 64 bytes of the value.
pub proof fn law_preview_is_bounded(value: Seq<char>, preview: Seq<char>)
    requires
        is_preview(value, preview),
    ensures
        utf8_len(value) > 64 ==> exists|n: int|
            0 <= n < value.len() && utf8_len(#[trigger] value.take(n)) <= 64 && preview
                == value.take(n) + "..."@,
        utf8_len(value) <= 64 ==> preview == value,
{
    if utf8_len(value) > 64 {
        let n = choose|n: int| #[trigger] cuts_at(value, n) && preview == value.take(n) + "..."@;
        assert(utf8_len(value.take(n)) <= 64);
    }
}

proof fn lemma_first_pattern(patterns: Seq<Seq<char>>, value: Seq<char>)
    ensures
        first_pattern(patterns, value) is None <==> forall|i: int|
            0 <= i < patterns.len() ==> !regex_language(#[trigger] patterns[i]).contains(value),
    decreases patterns.len(),
{
    if patterns.len() > 0 {
        let rest = patterns.skip(1);
        lemma_first_pattern(rest, value);
        assert forall|i: int| 0 < i < patterns.len() implies patterns[i] == #[trigger] rest[i - 1] by {}
        if first_pattern(patterns, value) is None {
            assert forall|i: int| 0 <= i < patterns.len() implies !regex_language(
                #[trigger] patterns[i],
            ).contains(value) by {
                if i > 0 {
                    assert(rest[i - 1] == patterns[i]);
                }
            }
        }
        if forall|i: int|
            0 <= i < patterns.len() ==> !regex_language(#[trigger] patterns[i]).contains(value) {
            assert forall|i: int| 0 <= i < rest.len() implies !regex_language(
                #[trigger] rest[i],
            ).contains(value) by {
                assert(rest[i] == patterns[i + 1]);
            }
        }
    }
}

/// A value passes exactly when no pattern of any enabled category matches
/// it.
pub proof fn law_value_passes_iff_no_pattern_matches(entries: Seq<EntryView>, value: Seq<char>)
    ensures
        first_match(entries, value) is None <==> forall|i: int, j: int|
            0 <= i < entries.len() && 0 <= j < entries[i].patterns.len() ==> !regex_language(
                #[trigger] entries[i].patterns[j],
            ).contains(value),
    decreases entries.len(),
{
    if entries.len() > 0 {
        let rest = entries.skip(1);
        law_value_passes_iff_no_pattern_matches(rest, value);
        lemma_first_pattern(entries[0].patterns, value);
        if first_match(entries, value) is None {
            assert forall|i: int, j: int|
                0 <= i < entries.len() && 0 <= j < entries[i].patterns.len() implies !regex_language(
                #[trigger] entries[i].patterns[j],
            ).contains(value) by {
                if i > 0 {
                    assert(rest[i - 1] == entries[i]);
                    assert(rest[i - 1].patterns[j] == entries[i].patterns[j]);
                }
            }
        }
        if forall|i: int, j: int|
            0 <= i < entries.len() && 0 <= j < entries[i].patterns.len() ==> !regex_language(
                #[trigger] entries[i].patterns[j],
            ).contains(value) {
            assert forall|j: int| 0 <= j < entries[0].patterns.len() implies !regex_language(
                #[trigger] entries[0].patterns[j],
            ).contains(value) by {}
            assert forall|i: int, j: int|
                0 <= i < rest.len() && 0 <= j < rest[i].patterns.len() implies !regex_language(
                #[trigger] rest[i].patterns[j],
            ).contains(value) by {
                assert(rest[i] == entries[i + 1]);
                assert(entries[i + 1].patterns[j] == rest[i].patterns[j]);
            }
        }
    }
}

} // verus!
