//! What a generation looks for, where, and what it reports.

use vstd::prelude::*;

use crate::dataplane::waf;
use crate::dataplane::waf::{EntryView, HeadPart, RouteWaf, WafFilter, WafMatch, WafTarget};
use crate::headers;
use crate::text;

verus! {

// ---------------------------------------------------------------------------
// Categories
// ---------------------------------------------------------------------------

/// Whether a list of names holds one.
pub open spec fn lists(names: Seq<String>, name: Seq<char>) -> bool {
    exists|i: int| 0 <= i < names.len() && (#[trigger] names[i])@ == name
}

/// Whether a configuration asks for a category: it names it, or names none at
/// all.
pub open spec fn asks_for(w: RouteWaf, f: WafFilter) -> bool {
    ||| w.filters@.len() == 0
    ||| f is Sqli && lists(w.filters@, "sqli"@)
    ||| f is Xss && lists(w.filters@, "xss"@)
    ||| f is PathTraversal && lists(w.filters@, "path_traversal"@)
}

/// Whether some entry is of a category.
pub open spec fn has_category(entries: Seq<EntryView>, f: WafFilter) -> bool {
    exists|i: int| 0 <= i < entries.len() && (#[trigger] entries[i]).filter == f
}

proof fn lemma_names_differ()
    ensures
        "sqli"@ != "xss"@,
        "sqli"@ != "path_traversal"@,
        "xss"@ != "path_traversal"@,
{
    reveal_strlit("sqli");
    reveal_strlit("xss");
    reveal_strlit("path_traversal");
    assert("sqli"@.len() == 4 && "xss"@.len() == 3 && "path_traversal"@.len() == 14);
}

/// Whether a name is that of a category.
pub open spec fn names(name: Seq<char>, f: WafFilter) -> bool {
    ||| f is Sqli && name == "sqli"@
    ||| f is Xss && name == "xss"@
    ||| f is PathTraversal && name == "path_traversal"@
}

proof fn lemma_named(all: Seq<Seq<char>>, n: nat, f: WafFilter)
    requires
        n <= all.len(),
    ensures
        waf::named_filters(all, n).contains(f) <==> exists|i: int|
            0 <= i < n && names(#[trigger] all[i], f),
    decreases n,
{
    if n > 0 {
        let m = (n - 1) as nat;
        lemma_named(all, m, f);
        lemma_names_differ();
        let before = waf::named_filters(all, m);
        let after = waf::named_filters(all, n);
        if before.contains(f) {
            let k = before.index_of(f);
            assert(after[k] == f);
        }
        if names(all[m as int], f) {
            assert(after[before.len() as int] == f);
        }
        if after.contains(f) {
            let k = after.index_of(f);
            if k < before.len() {
                assert(before[k] == f);
            } else {
                assert(names(all[m as int], f));
            }
        }
        if exists|i: int| 0 <= i < n && names(#[trigger] all[i], f) {
            let i = choose|i: int| 0 <= i < n && names(#[trigger] all[i], f);
            if i < m {
                assert(names(all[i], f));
            }
        }
    }
}

/// A generation looks for the categories that its configuration names, and
/// for all of them where it names none.
pub proof fn law_named_categories_are_looked_for(w: RouteWaf, f: WafFilter)
    ensures
        has_category(waf::entries_of(w), f) <==> asks_for(w, f),
{
    let all = text::texts(w.filters@);
    let fs = waf::enabled_filters(all);
    let entries = waf::entries_of(w);
    assert(entries.len() == fs.len());
    if w.filters@.len() == 0 {
        assert(fs[0] == WafFilter::Sqli && fs[1] == WafFilter::Xss && fs[2]
            == WafFilter::PathTraversal);
        if f is Sqli {
            assert(entries[0].filter == f);
        } else if f is Xss {
            assert(entries[1].filter == f);
        } else {
            assert(entries[2].filter == f);
        }
    } else {
        lemma_named(all, all.len(), f);
        if has_category(entries, f) {
            let i = choose|i: int| 0 <= i < entries.len() && (#[trigger] entries[i]).filter == f;
            assert(fs[i] == f);
            let k = choose|k: int| 0 <= k < all.len() && names(#[trigger] all[k], f);
            assert(w.filters@[k]@ == all[k]);
        }
        if asks_for(w, f) {
            let name = if f is Sqli {
                "sqli"@
            } else if f is Xss {
                "xss"@
            } else {
                "path_traversal"@
            };
            let k = choose|k: int| 0 <= k < w.filters@.len() && (#[trigger] w.filters@[k])@ == name;
            assert(all[k] == name);
            assert(names(all[k], f));
            assert(fs.contains(f));
            let i = fs.index_of(f);
            assert(entries[i].filter == f);
        }
    }
}

// ---------------------------------------------------------------------------
// Signatures
// ---------------------------------------------------------------------------

/// Whether a pattern is an SQL-injection signature.
pub open spec fn is_sqli_signature(p: Seq<char>) -> bool {
    ||| p == r"(?i)union\s+select"@
    ||| p == r"(?i)\bor\s+1\s*=\s*1\b"@
    ||| p == r"(?i)'\s*;\s*drop\s+table"@
    ||| p == r"(?i)'\s*;\s*delete\s+from"@
    ||| p == r"(?i)'\s*;\s*insert\s+into"@
    ||| p == r"(?i)'\s*;\s*update\s+set"@
    ||| p == r"(?i)--\s*$"@
    ||| p == r"(?i)--\s"@
    ||| p == r"(?i)xp_cmdshell"@
    ||| p == r"(?i)0x[0-9a-f]{8,}\b"@
    ||| p == r"(?i)'\s*or\s*'"@
    ||| p == r"(?i)'\s*and\s*'"@
    ||| p == r"(?i);\s*select\s+"@
    ||| p == r"(?i)\bexec\s*\("@
    ||| p == r"(?i)\bwaitfor\s+delay\b"@
    ||| p == r"(?i)\bsleep\s*\("@
    ||| p == r"(?i)\bbenchmark\s*\("@
    ||| p == r"(?i)\bload_file\s*\("@
    ||| p == r"(?i)\binto\s+outfile\b"@
    ||| p == r"(?i)\bgroup\s+by\s+\d+"@
    ||| p == r"(?i)'\s*=\s*'"@
}

/// Whether a pattern is a cross-site-scripting signature.
pub open spec fn is_xss_signature(p: Seq<char>) -> bool {
    ||| p == r"(?i)<script"@
    ||| p == r"(?i)javascript:"@
    ||| p == r"(?i)onerror\s*="@
    ||| p == r"(?i)onload\s*="@
    ||| p == r"(?i)onclick\s*="@
    ||| p == r"(?i)onmouseover\s*="@
    ||| p == r"(?i)<iframe"@
    ||| p == r"(?i)<object"@
    ||| p == r"(?i)<embed"@
    ||| p == r"(?i)document\.cookie"@
    ||| p == r"(?i)eval\s*\("@
    ||| p == r"(?i)alert\s*\("@
    ||| p == r"(?i)<img[^>]+src\s*="@
    ||| p == r"(?i)<svg[^>]+onload"@
    ||| p == r"(?i)String\.fromCharCode"@
    ||| p == r"(?i)\\x3cscript"@
    ||| p == r"(?i)&lt;script"@
    ||| p == r"(?i)<body[^>]+onload"@
    ||| p == r"(?i)expression\s*\("@
}

/// Whether a pattern is a path-traversal signature.
pub open spec fn is_traversal_signature(p: Seq<char>) -> bool {
    ||| p == r"\.\./"@
    ||| p == r"\.\.\\"@
    ||| p == r"(?i)%2e%2e%2f"@
    ||| p == r"(?i)%2e%2e/"@
    ||| p == r"(?i)%2e%2e%5c"@
    ||| p == r"\.\.%2f"@
    ||| p == r"(?i)\.\.//"@
    ||| p == r"(?i)\.\.\\"@
    ||| p == r"(?i)\.\.;/"@
    ||| p == r"%00"@
    ||| p == r"(?i)%252e%252e%252f"@
    ||| p == r"(?i)/etc/passwd"@
    ||| p == r"(?i)/etc/shadow"@
    ||| p == r"(?i)c:\\windows\\"@
    ||| p == r"(?i)\\windows\\win\.ini"@
    ||| p == r"(?i)/proc/self/"@
}

proof fn lemma_sqli_patterns(p: Seq<char>)
    ensures
        waf::sqli_patterns().contains(p) <==> is_sqli_signature(p),
{
    let s = waf::sqli_patterns();
    assert(s[0] == r"(?i)union\s+select"@);
    assert(s[1] == r"(?i)\bor\s+1\s*=\s*1\b"@);
    assert(s[2] == r"(?i)'\s*;\s*drop\s+table"@);
    assert(s[3] == r"(?i)'\s*;\s*delete\s+from"@);
    assert(s[4] == r"(?i)'\s*;\s*insert\s+into"@);
    assert(s[5] == r"(?i)'\s*;\s*update\s+set"@);
    assert(s[6] == r"(?i)--\s*$"@);
    assert(s[7] == r"(?i)--\s"@);
    assert(s[8] == r"(?i)xp_cmdshell"@);
    assert(s[9] == r"(?i)0x[0-9a-f]{8,}\b"@);
    assert(s[10] == r"(?i)'\s*or\s*'"@);
    assert(s[11] == r"(?i)'\s*and\s*'"@);
    assert(s[12] == r"(?i);\s*select\s+"@);
    assert(s[13] == r"(?i)\bexec\s*\("@);
    assert(s[14] == r"(?i)\bwaitfor\s+delay\b"@);
    assert(s[15] == r"(?i)\bsleep\s*\("@);
    assert(s[16] == r"(?i)\bbenchmark\s*\("@);
    assert(s[17] == r"(?i)\bload_file\s*\("@);
    assert(s[18] == r"(?i)\binto\s+outfile\b"@);
    assert(s[19] == r"(?i)\bgroup\s+by\s+\d+"@);
    assert(s[20] == r"(?i)'\s*=\s*'"@);
    assert(s.len() == 21);
}

proof fn lemma_xss_patterns(p: Seq<char>)
    ensures
        waf::xss_patterns().contains(p) <==> is_xss_signature(p),
{
    let s = waf::xss_patterns();
    assert(s[0] == r"(?i)<script"@);
    assert(s[1] == r"(?i)javascript:"@);
    assert(s[2] == r"(?i)onerror\s*="@);
    assert(s[3] == r"(?i)onload\s*="@);
    assert(s[4] == r"(?i)onclick\s*="@);
    assert(s[5] == r"(?i)onmouseover\s*="@);
    assert(s[6] == r"(?i)<iframe"@);
    assert(s[7] == r"(?i)<object"@);
    assert(s[8] == r"(?i)<embed"@);
    assert(s[9] == r"(?i)document\.cookie"@);
    assert(s[10] == r"(?i)eval\s*\("@);
    assert(s[11] == r"(?i)alert\s*\("@);
    assert(s[12] == r"(?i)<img[^>]+src\s*="@);
    assert(s[13] == r"(?i)<svg[^>]+onload"@);
    assert(s[14] == r"(?i)String\.fromCharCode"@);
    assert(s[15] == r"(?i)\\x3cscript"@);
    assert(s[16] == r"(?i)&lt;script"@);
    assert(s[17] == r"(?i)<body[^>]+onload"@);
    assert(s[18] == r"(?i)expression\s*\("@);
    assert(s.len() == 19);
}

proof fn lemma_path_traversal_patterns(p: Seq<char>)
    ensures
        waf::path_traversal_patterns().contains(p) <==> is_traversal_signature(p),
{
    let s = waf::path_traversal_patterns();
    assert(s[0] == r"\.\./"@);
    assert(s[1] == r"\.\.\\"@);
    assert(s[2] == r"(?i)%2e%2e%2f"@);
    assert(s[3] == r"(?i)%2e%2e/"@);
    assert(s[4] == r"(?i)%2e%2e%5c"@);
    assert(s[5] == r"\.\.%2f"@);
    assert(s[6] == r"(?i)\.\.//"@);
    assert(s[7] == r"(?i)\.\.\\"@);
    assert(s[8] == r"(?i)\.\.;/"@);
    assert(s[9] == r"%00"@);
    assert(s[10] == r"(?i)%252e%252e%252f"@);
    assert(s[11] == r"(?i)/etc/passwd"@);
    assert(s[12] == r"(?i)/etc/shadow"@);
    assert(s[13] == r"(?i)c:\\windows\\"@);
    assert(s[14] == r"(?i)\\windows\\win\.ini"@);
    assert(s[15] == r"(?i)/proc/self/"@);
    assert(s.len() == 16);
}

/// Whether a pattern is a signature of a category.
pub open spec fn is_signature(f: WafFilter, p: Seq<char>) -> bool {
    &&& f is Sqli ==> is_sqli_signature(p)
    &&& f is Xss ==> is_xss_signature(p)
    &&& f is PathTraversal ==> is_traversal_signature(p)
}

proof fn lemma_compiling(patterns: Seq<Seq<char>>, n: nat, p: Seq<char>)
    requires
        n <= patterns.len(),
    ensures
        waf::compiling(patterns, n).contains(p) <==> waf::regex_compiles(p) && patterns.take(
            n as int,
        ).contains(p),
    decreases n,
{
    if n > 0 {
        let m = (n - 1) as nat;
        lemma_compiling(patterns, m, p);
        let before = waf::compiling(patterns, m);
        let after = waf::compiling(patterns, n);
        let t = patterns.take(n as int);
        assert(t =~= patterns.take(m as int).push(patterns[m as int]));
        if patterns.take(m as int).contains(p) {
            let k = patterns.take(m as int).index_of(p);
            assert(t[k] == p);
        }
        assert(t[m as int] == patterns[m as int]);
        if t.contains(p) && p != patterns[m as int] {
            let k = t.index_of(p);
            assert(patterns.take(m as int)[k] == p);
        }
        if before.contains(p) {
            let k = before.index_of(p);
            assert(after[k] == p);
        }
        if waf::regex_compiles(patterns[m as int]) {
            assert(after[before.len() as int] == patterns[m as int]);
        }
        if after.contains(p) {
            let k = after.index_of(p);
            if k < before.len() {
                assert(before[k] == p);
            }
        }
    }
}

/// A generation looks, under each of its categories, for every signature of
/// the category and every custom pattern, as far as they compile, and for
/// nothing else.
pub proof fn law_every_signature_is_looked_for(w: RouteWaf, i: int, p: Seq<char>)
    requires
        0 <= i < waf::entries_of(w).len(),
    ensures
        waf::entries_of(w)[i].patterns.contains(p) <==> waf::regex_compiles(p) && (is_signature(
            waf::entries_of(w)[i].filter,
            p,
        ) || lists(w.custom_patterns@, p)),
{
    let f = waf::entries_of(w)[i].filter;
    let own = waf::builtin(f);
    let custom = text::texts(w.custom_patterns@);
    let all = own + custom;
    lemma_compiling(all, all.len(), p);
    assert(all.take(all.len() as int) =~= all);
    lemma_sqli_patterns(p);
    lemma_xss_patterns(p);
    lemma_path_traversal_patterns(p);
    assert(own.contains(p) <==> is_signature(f, p));
    if own.contains(p) {
        let k = own.index_of(p);
        assert(all[k] == p);
    }
    if lists(w.custom_patterns@, p) {
        let k = choose|k: int|
            0 <= k < w.custom_patterns@.len() && (#[trigger] w.custom_patterns@[k])@ == p;
        assert(all[own.len() + k] == p);
    }
    if all.contains(p) {
        let k = all.index_of(p);
        if k < own.len() {
            assert(own[k] == p);
        } else {
            assert(w.custom_patterns@[k - own.len()]@ == p);
        }
    }
}

/// Whether entries are those that a configuration asks for: its categories,
/// each with its signatures and the custom patterns, as far as they compile.
pub open spec fn looks_for(entries: Seq<EntryView>, w: RouteWaf) -> bool {
    &&& forall|f: WafFilter| #[trigger] has_category(entries, f) <==> asks_for(w, f)
    &&& forall|i: int, p: Seq<char>|
        0 <= i < entries.len() ==> (#[trigger] entries[i].patterns.contains(p)
            <==> waf::regex_compiles(p) && (is_signature(entries[i].filter, p) || lists(
            w.custom_patterns@,
            p,
        )))
}

/// A generation looks for what its configuration asks for.
pub proof fn law_generation_looks_for_what_is_asked(w: RouteWaf)
    ensures
        looks_for(waf::entries_of(w), w),
{
    assert forall|f: WafFilter| #[trigger]
        has_category(waf::entries_of(w), f) <==> asks_for(w, f) by {
        law_named_categories_are_looked_for(w, f);
    }
    assert forall|i: int, p: Seq<char>| 0 <= i < waf::entries_of(w).len() implies (
    #[trigger] waf::entries_of(w)[i].patterns.contains(p) <==> waf::regex_compiles(p) && (
    is_signature(waf::entries_of(w)[i].filter, p) || lists(w.custom_patterns@, p))) by {
        law_every_signature_is_looked_for(w, i, p);
    }
}

// ---------------------------------------------------------------------------
// Findings
// ---------------------------------------------------------------------------

/// Whether the pattern at `j` of the entry at `i` is found in a value.
pub open spec fn is_found(entries: Seq<EntryView>, i: int, j: int, value: Seq<char>) -> bool {
    &&& 0 <= i < entries.len()
    &&& 0 <= j < entries[i].patterns.len()
    &&& waf::regex_language(entries[i].patterns[j]).contains(value)
}

/// Whether some pattern is found in a value.
pub open spec fn is_suspect(entries: Seq<EntryView>, value: Seq<char>) -> bool {
    exists|i: int, j: int| #[trigger] is_found(entries, i, j, value)
}

/// Whether the pattern at `j` of the entry at `i` is the first that is found.
pub open spec fn is_first_found(
    entries: Seq<EntryView>,
    i: int,
    j: int,
    value: Seq<char>,
) -> bool {
    &&& is_found(entries, i, j, value)
    &&& forall|x: int, y: int| #[trigger] is_found(entries, x, y, value) ==> x > i || (x == i && y >= j)
}

proof fn lemma_first_pattern(patterns: Seq<Seq<char>>, value: Seq<char>) -> (j: int)
    requires
        waf::first_pattern(patterns, value) is Some,
    ensures
        0 <= j < patterns.len(),
        waf::first_pattern(patterns, value) == Some(patterns[j]),
        waf::regex_language(patterns[j]).contains(value),
        forall|y: int|
            0 <= y < j ==> !waf::regex_language(#[trigger] patterns[y]).contains(value),
    decreases patterns.len(),
{
    if waf::regex_language(patterns[0]).contains(value) {
        0
    } else {
        let rest = patterns.skip(1);
        let j = lemma_first_pattern(rest, value);
        assert forall|y: int| 0 <= y < j + 1 implies !waf::regex_language(
            #[trigger] patterns[y],
        ).contains(value) by {
            if y > 0 {
                assert(rest[y - 1] == patterns[y]);
            }
        }
        assert(rest[j] == patterns[j + 1]);
        j + 1
    }
}

proof fn lemma_first_match(entries: Seq<EntryView>, value: Seq<char>) -> (r: (int, int))
    requires
        waf::first_match(entries, value) is Some,
    ensures
        is_first_found(entries, r.0, r.1, value),
        waf::first_match(entries, value) == Some(
            (entries[r.0].filter, entries[r.0].patterns[r.1]),
        ),
    decreases entries.len(),
{
    if waf::first_pattern(entries[0].patterns, value) is Some {
        let j = lemma_first_pattern(entries[0].patterns, value);
        assert(is_found(entries, 0, j, value));
        assert forall|x: int, y: int| #[trigger] is_found(entries, x, y, value) implies x > 0 || (x
            == 0 && y >= j) by {
            if x == 0 && y < j {
                assert(!waf::regex_language(entries[0].patterns[y]).contains(value));
            }
        }
        (0, j)
    } else {
        let rest = entries.skip(1);
        let (i, j) = lemma_first_match(rest, value);
        waf::lemma_first_pattern(entries[0].patterns, value);
        assert(rest[i] == entries[i + 1]);
        assert(is_found(entries, i + 1, j, value));
        assert forall|x: int, y: int| #[trigger] is_found(entries, x, y, value) implies x > i + 1
            || (x == i + 1 && y >= j) by {
            if x > 0 {
                assert(rest[x - 1] == entries[x]);
                assert(is_found(rest, x - 1, y, value));
            } else {
                assert(!waf::regex_language(entries[0].patterns[y]).contains(value));
            }
        }
        (i + 1, j)
    }
}

/// A value is reported exactly if some pattern is found in it; the report
/// names the category and the pattern of the first that is, and where the
/// value stood.
pub proof fn law_finding_is_reported(
    m: Option<WafMatch>,
    entries: Seq<EntryView>,
    target: WafTarget,
    value: Seq<char>,
)
    requires
        waf::reports(m, entries, target, value),
    ensures
        m is Some <==> is_suspect(entries, value),
        m is Some ==> exists|i: int, j: int|
            #[trigger] is_first_found(entries, i, j, value) && m->Some_0.filter
                == entries[i].filter && m->Some_0.pattern@ == entries[i].patterns[j]
                && m->Some_0.target == target,
{
    waf::law_value_passes_iff_no_pattern_matches(entries, value);
    if waf::first_match(entries, value) is Some {
        let (i, j) = lemma_first_match(entries, value);
        assert(is_found(entries, i, j, value));
    } else if is_suspect(entries, value) {
        let (i, j) = choose|i: int, j: int| #[trigger] is_found(entries, i, j, value);
        assert(!waf::regex_language(entries[i].patterns[j]).contains(value));
    }
}

/// Whether a header value is there and readable: visible ASCII, spaces and
/// tabs.
pub open spec fn is_read(value: Option<&str>) -> bool {
    value is Some && forall|i: int|
        0 <= i < value->Some_0@.len() ==> {
            let u = (#[trigger] value->Some_0@[i]) as u32;
            32 <= u <= 126 || u == 9
        }
}

/// Whether some pattern is found in a header value that can be read.
pub open spec fn is_suspect_header(entries: Seq<EntryView>, value: Option<&str>) -> bool {
    is_read(value) && is_suspect(entries, value->Some_0@)
}

proof fn lemma_part(entries: Seq<EntryView>, p: HeadPart)
    ensures
        waf::part_clean(entries, p) <==> !(p.value is Some && is_suspect(entries, p.value->Some_0)),
{
    if let Some(v) = p.value {
        waf::law_value_passes_iff_no_pattern_matches(entries, v);
        if waf::first_match(entries, v) is Some {
            let (i, j) = lemma_first_match(entries, v);
            assert(is_found(entries, i, j, v));
        } else if is_suspect(entries, v) {
            let (i, j) = choose|i: int, j: int| #[trigger] is_found(entries, i, j, v);
            assert(!waf::regex_language(entries[i].patterns[j]).contains(v));
        }
    }
}

/// Whether a report is that on a request head: there is one exactly if some
/// pattern is found in the path, the query, or a readable User-Agent, Referer,
/// Cookie or X-Forwarded-For; and it names the first of them.
pub open spec fn reports_head(
    m: Option<WafMatch>,
    entries: Seq<EntryView>,
    path: &str,
    query: Option<&str>,
    user_agent: Option<&str>,
    referer: Option<&str>,
    cookie: Option<&str>,
    forwarded_for: Option<&str>,
) -> bool {
    let in_path = is_suspect(entries, path@);
    let in_query = query is Some && is_suspect(entries, query->Some_0@);
    let in_headers = is_suspect_header(entries, user_agent) || is_suspect_header(entries, referer)
        || is_suspect_header(entries, cookie) || is_suspect_header(entries, forwarded_for);
    &&& m is Some <==> in_path || in_query || in_headers
    &&& in_path ==> m->Some_0.target == WafTarget::Path
    &&& !in_path && in_query ==> m->Some_0.target == WafTarget::Query
    &&& !in_path && !in_query && in_headers ==> m->Some_0.target == WafTarget::Header
}

/// A request head is reported exactly if some pattern is found in its path,
/// its query, or a readable User-Agent, Referer, Cookie or X-Forwarded-For;
/// the path is looked at first, then the query, then the headers.
pub proof fn law_whole_head_is_inspected(
    m: Option<WafMatch>,
    entries: Seq<EntryView>,
    path: &str,
    query: Option<&str>,
    user_agent: Option<&str>,
    referer: Option<&str>,
    cookie: Option<&str>,
    forwarded_for: Option<&str>,
)
    requires
        waf::reports_first(
            m,
            entries,
            waf::head_parts(
                path,
                query,
                headers::read_value(user_agent),
                headers::read_value(referer),
                headers::read_value(cookie),
                headers::read_value(forwarded_for),
            ),
        ),
    ensures
        reports_head(
            m,
            entries,
            path,
            query,
            user_agent,
            referer,
            cookie,
            forwarded_for,
        ),
{
    let parts = waf::head_parts(
        path,
        query,
        headers::read_value(user_agent),
        headers::read_value(referer),
        headers::read_value(cookie),
        headers::read_value(forwarded_for),
    );
    lemma_read(user_agent);
    lemma_read(referer);
    lemma_read(cookie);
    lemma_read(forwarded_for);
    assert forall|i: int| 0 <= i < parts.len() implies waf::part_clean(entries, #[trigger] parts[i])
        <==> !(parts[i].value is Some && is_suspect(entries, parts[i].value->Some_0)) by {
        lemma_part(entries, parts[i]);
    }
    assert(parts[0].value == Some(path@) && parts[0].target == WafTarget::Path);
    assert(parts[1].value == text::opt_str(query) && parts[1].target == WafTarget::Query);
    assert(parts[2].value == text::opt_str(headers::read_value(user_agent)) && parts[2].target
        == WafTarget::Header);
    assert(parts[3].value == text::opt_str(headers::read_value(referer)) && parts[3].target
        == WafTarget::Header);
    assert(parts[4].value == text::opt_str(headers::read_value(cookie)) && parts[4].target
        == WafTarget::Header);
    assert(parts[5].value == text::opt_str(headers::read_value(forwarded_for)) && parts[5].target
        == WafTarget::Header);
    assert(parts.len() == 6);
}

proof fn lemma_read(value: Option<&str>)
    ensures
        is_read(value) <==> headers::read_value(value) is Some,
        is_read(value) ==> headers::read_value(value) == value,
{
    if let Some(v) = value {
        if is_read(value) {
            assert forall|i: int| 0 <= i < v@.len() implies headers::is_readable_char(
                #[trigger] v@[i],
            ) by {
                assert(v@[i] == value->Some_0@[i]);
            }
        }
        if headers::is_readable(v@) {
            assert forall|i: int| 0 <= i < value->Some_0@.len() implies ({
                let u = (#[trigger] value->Some_0@[i]) as u32;
                32 <= u <= 126 || u == 9
            }) by {
                assert(headers::is_readable_char(v@[i]));
            }
        }
    }
}

// ---------------------------------------------------------------------------
// Bodies
// ---------------------------------------------------------------------------

/// A body is inspected exactly if its content type, in whatever case, begins
/// as that of JSON or of a form does.
pub proof fn law_json_and_form_bodies_are_inspected(content_type: Option<&str>)
    ensures
        content_type is None ==> !waf::inspected_type(content_type),
        content_type is Some ==> (waf::inspected_type(content_type) <==> {
            ||| "application/json"@.is_prefix_of(text::lower(content_type->Some_0@))
            ||| "application/x-www-form-urlencoded"@.is_prefix_of(
                text::lower(content_type->Some_0@),
            )
        }),
{
}

/// As much of a body is taken for inspection as fits under the cap, and no
/// more: what does not fit is left only once the cap is reached.
pub proof fn law_prefix_is_filled_up_to_the_cap(cap: u64, have: nat, len: nat)
    requires
        have <= cap,
    ensures
        waf::prefix_room(cap, have, len) <= len,
        have + waf::prefix_room(cap, have, len) <= cap,
        waf::prefix_room(cap, have, len) < len ==> have + waf::prefix_room(cap, have, len) == cap,
{
}

} // verus!
