//! OpenAPI tool synthesis naming: discovery pattern matching, canonical
//! tool names derived from method and path, name deduplication, and
//! override matchers.

use crate::safety::{ascii_lowercase, spec_ascii_lower};
use crate::text::{
    push_char, spec_dec, str_eq, string_eq, strings_contain, u64_to_string, view_strings,
};
use vstd::prelude::*;

verus! {

broadcast use vstd::std_specs::vec::group_vec_axioms, vstd::seq::group_seq_axioms;

/// Glob matching: `*` matches any sequence, `?` any single character.
pub open spec fn spec_glob(p: Seq<char>, t: Seq<char>) -> bool
    decreases p.len() + t.len(),
{
    if p.len() == 0 {
        t.len() == 0
    } else if p.first() == '*' {
        spec_glob(p.drop_first(), t) || (t.len() > 0 && spec_glob(p, t.drop_first()))
    } else {
        t.len() > 0 && (p.first() == '?' || p.first() == t.first()) && spec_glob(
            p.drop_first(),
            t.drop_first(),
        )
    }
}

fn glob_at(p: &str, np: usize, pi: usize, t: &str, nt: usize, ti: usize) -> (r: bool)
    requires
        np == p@.len(),
        nt == t@.len(),
        pi <= np,
        ti <= nt,
    ensures
        r == spec_glob(p@.skip(pi as int), t@.skip(ti as int)),
    decreases (np - pi) + (nt - ti),
{
    if pi == np {
        return ti == nt;
    }
    let c = p.get_char(pi);
    proof {
        assert(p@.skip(pi as int).first() == p@[pi as int]);
        assert(p@.skip(pi as int).drop_first() =~= p@.skip(pi + 1));
        if ti < nt {
            assert(t@.skip(ti as int).first() == t@[ti as int]);
            assert(t@.skip(ti as int).drop_first() =~= t@.skip(ti + 1));
        } else {
            assert(t@.skip(ti as int).len() == 0);
        }
    }
    if c == '*' {
        if glob_at(p, np, pi + 1, t, nt, ti) {
            return true;
        }
        if ti < nt {
            return glob_at(p, np, pi, t, nt, ti + 1);
        }
        return false;
    }
    if ti == nt {
        return false;
    }
    let tc = t.get_char(ti);
    if c == '?' || c == tc {
        glob_at(p, np, pi + 1, t, nt, ti + 1)
    } else {
        false
    }
}

/// Whether an operation string such as `GET /users/*` matches a discovery
/// pattern.
pub fn matches_pattern(pattern: &str, operation: &str) -> (r: bool)
    ensures
        r == spec_glob(pattern@, operation@),
{
    let np = pattern.unicode_len();
    let nt = operation.unicode_len();
    let r = glob_at(pattern, np, 0, operation, nt, 0);
    proof {
        assert(pattern@.skip(0) =~= pattern@);
        assert(operation@.skip(0) =~= operation@);
    }
    r
}

/// One character of the canonical-name alphabet: ASCII letters and digits.
pub open spec fn spec_word_char(c: char) -> bool {
    ('a' <= c <= 'z') || ('A' <= c <= 'Z') || ('0' <= c <= '9')
}

/// Stage one of canonical naming: keep word characters, turn `{` and any
/// other separator into `_`, and drop `}` so a `{param}` segment becomes
/// `_param`.
pub open spec fn spec_name_map(s: Seq<char>) -> Seq<char>
    decreases s.len(),
{
    if s.len() == 0 {
        Seq::empty()
    } else {
        let rest = spec_name_map(s.drop_first());
        if spec_word_char(s.first()) {
            seq![s.first()] + rest
        } else if s.first() == '}' {
            rest
        } else {
            seq!['_'] + rest
        }
    }
}

/// Stage two: collapse runs of `_` into one.
pub open spec fn spec_collapse(s: Seq<char>) -> Seq<char>
    decreases s.len(),
{
    if s.len() == 0 {
        Seq::empty()
    } else if s.len() >= 2 && s.first() == '_' && s[1] == '_' {
        spec_collapse(s.drop_first())
    } else {
        seq![s.first()] + spec_collapse(s.drop_first())
    }
}

/// Stage three: trim leading and trailing `_`.
pub open spec fn spec_trim_underscores(s: Seq<char>) -> Seq<char> {
    let from = if s.len() > 0 && s.first() == '_' {
        1int
    } else {
        0int
    };
    let upto = if s.len() > 0 && s.last() == '_' && s.len() > from {
        s.len() - 1
    } else {
        s.len() as int
    };
    s.subrange(from, upto)
}

/// The canonical tool name for an operation: lower-cased method, `_`, then
/// the path with parameters flattened, non-word characters as `_`, runs
/// collapsed, ends trimmed, capped at 64 characters.
pub open spec fn spec_canonical_name(method: Seq<char>, path: Seq<char>) -> Seq<char> {
    let raw = spec_trim_underscores(
        spec_collapse(spec_name_map(spec_ascii_lower(method) + seq!['_'] + path)),
    );
    if raw.len() <= 64 {
        raw
    } else {
        raw.take(64)
    }
}

fn name_map(s: &str) -> (r: String)
    ensures
        r@ == spec_name_map(s@),
{
    let n = s.unicode_len();
    let mut out = String::new();
    let mut j: usize = 0;
    proof {
        assert(s@.skip(0) =~= s@);
        assert(out@ + spec_name_map(s@) =~= spec_name_map(s@));
    }
    while j < n
        invariant
            n == s@.len(),
            j <= n,
            out@ + spec_name_map(s@.skip(j as int)) == spec_name_map(s@),
        decreases n - j,
    {
        let c = s.get_char(j);
        proof {
            assert(s@.skip(j as int).first() == s@[j as int]);
            assert(s@.skip(j as int).drop_first() =~= s@.skip(j + 1));
        }
        let lower = 'a' <= c && c <= 'z';
        let upper = 'A' <= c && c <= 'Z';
        let digit = '0' <= c && c <= '9';
        if lower || upper || digit {
            push_char(&mut out, c);
        } else if c != '}' {
            push_char(&mut out, '_');
        }
        proof {
            assert(out@ + spec_name_map(s@.skip(j + 1)) =~= spec_name_map(s@));
        }
        j = j + 1;
    }
    proof {
        assert(s@.skip(n as int) =~= Seq::<char>::empty());
        assert(out@ + Seq::<char>::empty() =~= out@);
    }
    out
}

fn collapse_underscores(s: &str) -> (r: String)
    ensures
        r@ == spec_collapse(s@),
{
    let n = s.unicode_len();
    let mut out = String::new();
    let mut j: usize = 0;
    proof {
        assert(s@.skip(0) =~= s@);
        assert(out@ + spec_collapse(s@) =~= spec_collapse(s@));
    }
    while j < n
        invariant
            n == s@.len(),
            j <= n,
            out@ + spec_collapse(s@.skip(j as int)) == spec_collapse(s@),
        decreases n - j,
    {
        let c = s.get_char(j);
        proof {
            assert(s@.skip(j as int).first() == s@[j as int]);
            assert(s@.skip(j as int).drop_first() =~= s@.skip(j + 1));
            if j + 1 < n {
                assert(s@.skip(j as int)[1] == s@[j + 1]);
            }
        }
        if c == '_' && j + 1 < n && s.get_char(j + 1) == '_' {
            // skip: the next character continues the run
        } else {
            push_char(&mut out, c);
        }
        proof {
            assert(out@ + spec_collapse(s@.skip(j + 1)) =~= spec_collapse(s@));
        }
        j = j + 1;
    }
    proof {
        assert(s@.skip(n as int) =~= Seq::<char>::empty());
        assert(out@ + Seq::<char>::empty() =~= out@);
    }
    out
}

/// Generate the canonical tool name from an HTTP method and a path.
pub fn generate_canonical_name(method: &str, path: &str) -> (r: String)
    ensures
        r@ == spec_canonical_name(method@, path@),
{
    let mut joined = ascii_lowercase(method);
    joined.append("_");
    joined.append(path);
    proof {
        reveal_strlit("_");
        assert(joined@ =~= spec_ascii_lower(method@) + seq!['_'] + path@);
    }
    let mapped = name_map(joined.as_str());
    let collapsed = collapse_underscores(mapped.as_str());
    let cn = collapsed.as_str().unicode_len();
    let from: usize = if cn > 0 && collapsed.as_str().get_char(0) == '_' {
        1
    } else {
        0
    };
    let upto: usize = if cn > 0 && collapsed.as_str().get_char(cn - 1) == '_' && cn > from {
        cn - 1
    } else {
        cn
    };
    let trimmed = collapsed.as_str().substring_char(from, upto).to_owned();
    proof {
        assert(trimmed@ =~= spec_trim_underscores(collapsed@));
    }
    let tn = trimmed.as_str().unicode_len();
    if tn <= 64 {
        trimmed
    } else {
        let capped = trimmed.as_str().substring_char(0, 64).to_owned();
        proof {
            assert(capped@ =~= spec_trim_underscores(
                spec_collapse(spec_name_map(spec_ascii_lower(method@) + seq!['_'] + path@)),
            ).take(64));
        }
        capped
    }
}

/// Decimal renderings are distinct for distinct numbers.
proof fn lemma_dec_len(n: nat)
    ensures
        spec_dec(n).len() >= 1,
        (n < 10) <==> (spec_dec(n).len() == 1),
    decreases n,
{
    if n >= 10 {
        lemma_dec_len(n / 10);
    }
}

proof fn lemma_dec_injective(a: nat, b: nat)
    requires
        spec_dec(a) == spec_dec(b),
    ensures
        a == b,
    decreases a,
{
    lemma_dec_len(a);
    lemma_dec_len(b);
    if a < 10 && b < 10 {
        assert(spec_dec(a)[0] == crate::text::spec_digit(a as int));
        assert(spec_dec(b)[0] == crate::text::spec_digit(b as int));
    } else if a >= 10 && b >= 10 {
        assert(spec_dec(a).last() == crate::text::spec_digit((a % 10) as int));
        assert(spec_dec(b).last() == crate::text::spec_digit((b % 10) as int));
        assert(a % 10 == b % 10);
        assert(spec_dec(a).drop_last() =~= spec_dec(a / 10));
        assert(spec_dec(b).drop_last() =~= spec_dec(b / 10));
        lemma_dec_injective(a / 10, b / 10);
    }
}

/// The suffixed candidate for one counter value.
pub open spec fn spec_suffixed(base: Seq<char>, k: nat) -> Seq<char> {
    base + seq!['_'] + spec_dec(k)
}

proof fn lemma_suffixed_injective(base: Seq<char>, x: nat, y: nat)
    requires
        spec_suffixed(base, x) == spec_suffixed(base, y),
    ensures
        x == y,
{
    let sx = spec_suffixed(base, x);
    let sy = spec_suffixed(base, y);
    assert(sx.skip(base.len() as int + 1) =~= spec_dec(x));
    assert(sy.skip(base.len() as int + 1) =~= spec_dec(y));
    lemma_dec_injective(x, y);
}

/// Reserve a unique tool name: the base name itself, or the base suffixed
/// `_1`, `_2`, ... with the first free counter.
pub fn reserve_unique_tool_name(tool_names: &mut Vec<String>, base: &str) -> (r: String)
    requires
        old(tool_names)@.len() + 2 <= usize::MAX,
    ensures
        view_strings(final(tool_names)@) == view_strings(old(tool_names)@).push(r@),
        !view_strings(old(tool_names)@).contains(r@),
        r@ == base@ || (exists|k: nat| k >= 1 && r@ == spec_suffixed(base@, k)),
        // The bare base name is taken exactly when it was free.
        r@ == base@ <==> !view_strings(old(tool_names)@).contains(base@),
        // A suffixed name carries the smallest free counter.
        forall|k: nat|
            1 <= k && r@ == spec_suffixed(base@, k) ==> forall|j: nat|
                1 <= j < k ==> view_strings(old(tool_names)@).contains(
                    #[trigger] spec_suffixed(base@, j),
                ),
{
    if !strings_contain(tool_names, base) {
        let r = base.to_owned();
        let ghost prev = tool_names@;
        tool_names.push(base.to_owned());
        proof {
            lemma_view_strings_push(prev, tool_names@.last());
            assert(view_strings(tool_names@) =~= view_strings(prev).push(r@));
        }
        return r;
    }
    let n = tool_names.len();
    let mut counter: usize = 1;
    let ghost names = view_strings(tool_names@);
    while counter <= n + 1
        invariant
            n == tool_names@.len(),
            n + 2 <= usize::MAX,
            names == view_strings(tool_names@),
            tool_names@ == old(tool_names)@,
            view_strings(old(tool_names)@).contains(base@),
            1 <= counter <= n + 2,
            forall|k: nat| 1 <= k < counter ==> names.contains(#[trigger] spec_suffixed(base@, k)),
        decreases n + 2 - counter,
    {
        let mut candidate = base.to_owned();
        candidate.append("_");
        let rendered = u64_to_string(counter as u64);
        candidate.append(rendered.as_str());
        proof {
            reveal_strlit("_");
            assert(candidate@ =~= spec_suffixed(base@, counter as nat));
        }
        if !strings_contain(tool_names, candidate.as_str()) {
            let ghost prev = tool_names@;
            let r = candidate.clone();
            tool_names.push(candidate);
            proof {
                lemma_view_strings_push(prev, tool_names@.last());
                assert(view_strings(tool_names@) =~= view_strings(prev).push(r@));
                assert(r@ != base@) by {
                    lemma_dec_len(counter as nat);
                    assert(r@.len() > base@.len());
                }
                assert forall|k: nat| 1 <= k && r@ == spec_suffixed(base@, k) implies (forall|
                    j: nat,
                |
                    1 <= j < k ==> view_strings(prev).contains(
                        #[trigger] spec_suffixed(base@, j),
                    )) by {
                    lemma_suffixed_injective(base@, k, counter as nat);
                }
            }
            return r;
        }
        counter = counter + 1;
    }
    // Unreachable: `n` names cannot contain `n + 1` distinct candidates.
    proof {
        let cands = Seq::new((n + 1) as nat, |t: int| spec_suffixed(base@, (t + 1) as nat));
        assert(cands.no_duplicates()) by {
            assert forall|i: int, j: int|
                0 <= i < cands.len() && 0 <= j < cands.len() && i != j implies cands[i]
                != cands[j] by {
                if cands[i] == cands[j] {
                    lemma_suffixed_injective(base@, (i + 1) as nat, (j + 1) as nat);
                }
            }
        }
        cands.unique_seq_to_set();
        assert(cands.to_set().subset_of(names.to_set())) by {
            assert forall|x: Seq<char>| cands.to_set().contains(x) implies names.to_set().contains(
                x,
            ) by {
                let t = choose|t: int| 0 <= t < cands.len() && cands[t] == x;
                assert(names.contains(spec_suffixed(base@, (t + 1) as nat)));
                let q = choose|q: int| 0 <= q < names.len() && names[q] == x;
                assert(names.to_set().contains(names[q]));
            }
        }
        names.lemma_cardinality_of_set();
        vstd::set_lib::lemma_len_subset(cands.to_set(), names.to_set());
        assert(names.len() == n);
        assert(false);
    }
    base.to_owned()
}

proof fn lemma_view_strings_push(prev: Seq<String>, x: String)
    ensures
        view_strings(prev.push(x)) =~= view_strings(prev).push(x@),
{
    assert forall|t: int| 0 <= t < prev.len() + 1 implies view_strings(prev.push(x))[t]
        == view_strings(prev).push(x@)[t] by {
        if t < prev.len() {
            assert(prev.push(x)[t] == prev[t]);
        }
    }
}

/// ASCII whitespace trimmed from both ends of override method strings.
pub open spec fn spec_is_space(c: char) -> bool {
    c == ' ' || c == '\t' || c == '\n' || c == '\r'
}

/// The longest prefix of whitespace.
pub open spec fn spec_leading_ws(s: Seq<char>) -> int
    decreases s.len(),
{
    if s.len() == 0 || !spec_is_space(s.first()) {
        0
    } else {
        1 + spec_leading_ws(s.drop_first())
    }
}

/// The string with ASCII whitespace removed from both ends.
pub open spec fn spec_trim(s: Seq<char>) -> Seq<char>
    decreases s.len(),
{
    if s.len() == 0 {
        s
    } else if spec_is_space(s.first()) {
        spec_trim(s.drop_first())
    } else if spec_is_space(s.last()) {
        spec_trim(s.drop_last())
    } else {
        s
    }
}

fn is_space(c: char) -> (r: bool)
    ensures
        r == spec_is_space(c),
{
    c == ' ' || c == '\t' || c == '\n' || c == '\r'
}

/// Trim ASCII whitespace from both ends.
pub fn trim_ascii(s: &str) -> (r: String)
    ensures
        r@ == spec_trim(s@),
{
    let n = s.unicode_len();
    let mut from: usize = 0;
    proof {
        assert(s@.skip(0) =~= s@);
    }
    while from < n && is_space(s.get_char(from))
        invariant
            n == s@.len(),
            from <= n,
            forall|t: int| 0 <= t < from ==> spec_is_space(s@[t]),
            spec_trim(s@) == spec_trim(s@.skip(from as int)),
        decreases n - from,
    {
        proof {
            assert(s@.skip(from as int).first() == s@[from as int]);
            assert(s@.skip(from as int).drop_first() =~= s@.skip(from + 1));
        }
        from = from + 1;
    }
    let mut upto: usize = n;
    while upto > from && is_space(s.get_char(upto - 1))
        invariant
            n == s@.len(),
            from <= upto <= n,
            from < n ==> !spec_is_space(s@[from as int]),
            from == upto || !spec_is_space(s@[from as int]),
            spec_trim(s@) == spec_trim(s@.subrange(from as int, upto as int)),
        decreases upto,
    {
        proof {
            let cur = s@.subrange(from as int, upto as int);
            assert(cur.last() == s@[upto - 1]);
            assert(cur.first() == s@[from as int]);
            assert(cur.drop_last() =~= s@.subrange(from as int, upto - 1));
        }
        upto = upto - 1;
    }
    let r = s.substring_char(from, upto).to_owned();
    proof {
        let cur = s@.subrange(from as int, upto as int);
        if cur.len() > 0 {
            assert(cur.first() == s@[from as int]);
            assert(cur.last() == s@[upto - 1]);
        }
        assert(spec_trim(cur) == cur);
        assert(r@ =~= cur);
    }
    r
}

/// Give a tool path a leading slash if it lacks one.
pub fn normalize_tool_path(path: &str) -> (r: String)
    ensures
        r@ == if path@.len() > 0 && path@.first() == '/' {
            path@
        } else {
            seq!['/'] + path@
        },
{
    let n = path.unicode_len();
    if n > 0 && path.get_char(0) == '/' {
        path.to_owned()
    } else {
        let mut out = String::new();
        push_char(&mut out, '/');
        out.append(path);
        proof {
            assert(out@ =~= seq!['/'] + path@);
        }
        out
    }
}

/// The identity of one OpenAPI operation.
#[derive(Debug, PartialEq, Eq)]
pub struct OperationKey {
    pub method: String,
    pub path: String,
    pub operation_id: Option<String>,
}

impl OperationKey {
    /// The key of an operation given its method, path and operation id.
    pub fn from_info(method: &str, path: &str, operation_id: Option<&String>) -> (r: OperationKey)
        ensures
            r.method@ == method@,
            r.path@ == path@,
            match (r.operation_id, operation_id) {
                (Some(a), Some(b)) => a@ == b@,
                (None, None) => true,
                _ => false,
            },
    {
        OperationKey {
            method: method.to_owned(),
            path: path.to_owned(),
            operation_id: match operation_id {
                Some(s) => Some(s.clone()),
                None => None,
            },
        }
    }
}

/// Which operation a manual or response override targets.
#[derive(Debug, PartialEq, Eq)]
pub struct OpenApiToolMatch {
    pub operation_id: Option<String>,
    pub method: Option<String>,
    pub path: Option<String>,
}

/// Whether a response override's matcher selects an operation: every
/// present criterion must agree, the method compared trimmed and
/// lower-cased.
pub fn response_override_matches_operation(matcher: &OpenApiToolMatch, op: &OperationKey) -> (r:
    bool)
    ensures
        r == ({
            &&& match (matcher.operation_id, op.operation_id) {
                (Some(want), Some(have)) => want@ == have@,
                (Some(_), None) => false,
                (None, _) => true,
            }
            &&& match matcher.method {
                Some(m) => spec_ascii_lower(spec_trim(m@)) == op.method@,
                None => true,
            }
            &&& match matcher.path {
                Some(p) => p@ == op.path@,
                None => true,
            }
        }),
{
    if let Some(want) = &matcher.operation_id {
        match &op.operation_id {
            Some(have) => {
                if !string_eq(want, have) {
                    return false;
                }
            },
            None => {
                return false;
            },
        }
    }
    if let Some(m) = &matcher.method {
        let trimmed = trim_ascii(m.as_str());
        let lowered = ascii_lowercase(trimmed.as_str());
        if !str_eq(lowered.as_str(), op.method.as_str()) {
            return false;
        }
    }
    if let Some(p) = &matcher.path {
        if !string_eq(p, &op.path) {
            return false;
        }
    }
    true
}

/// Spec hash verification policy for loaded OpenAPI documents.
#[derive(Debug, Clone, Copy, PartialEq, Eq, Structural)]
pub enum HashPolicy {
    /// Log a warning when the hash differs.
    Warn,
    /// Refuse to start when the hash differs.
    Fail,
    /// Skip verification.
    Ignore,
}

impl Default for HashPolicy {
    fn default() -> (r: HashPolicy)
        ensures
            r == HashPolicy::Warn,
    {
        HashPolicy::Warn
    }
}

/// Operation auto-discovery configuration.
#[derive(Debug, PartialEq, Eq)]
pub enum AutoDiscoverConfig {
    /// Discover everything, or nothing beyond explicit endpoints.
    Enabled(bool),
    /// Discover with include and exclude patterns; exclude wins.
    Detailed { include_globs: Vec<String>, exclude_globs: Vec<String> },
}

impl AutoDiscoverConfig {
    /// Whether discovery runs at all.
    pub fn is_enabled(&self) -> (r: bool)
        ensures
            r == match self {
                AutoDiscoverConfig::Enabled(b) => *b,
                AutoDiscoverConfig::Detailed { .. } => true,
            },
    {
        match self {
            AutoDiscoverConfig::Enabled(b) => *b,
            AutoDiscoverConfig::Detailed { .. } => true,
        }
    }

    /// The include patterns; empty in the simple form.
    pub fn include_patterns(&self) -> (r: Vec<String>)
        ensures
            view_strings(r@) =~= match self {
                AutoDiscoverConfig::Enabled(_) => Seq::<Seq<char>>::empty(),
                AutoDiscoverConfig::Detailed { include_globs, .. } => view_strings(include_globs@),
            },
    {
        match self {
            AutoDiscoverConfig::Enabled(_) => Vec::new(),
            AutoDiscoverConfig::Detailed { include_globs, .. } => copy_strings(include_globs),
        }
    }

    /// The exclude patterns; empty in the simple form.
    pub fn exclude_patterns(&self) -> (r: Vec<String>)
        ensures
            view_strings(r@) =~= match self {
                AutoDiscoverConfig::Enabled(_) => Seq::<Seq<char>>::empty(),
                AutoDiscoverConfig::Detailed { exclude_globs, .. } => view_strings(exclude_globs@),
            },
    {
        match self {
            AutoDiscoverConfig::Enabled(_) => Vec::new(),
            AutoDiscoverConfig::Detailed { exclude_globs, .. } => copy_strings(exclude_globs),
        }
    }

    /// Whether an operation should be auto-discovered: exclude patterns
    /// win; a non-empty include list must match.
    pub fn should_discover(&self, operation_str: &str) -> (r: bool)
        ensures
            match self {
                AutoDiscoverConfig::Enabled(_) => r == true,
                AutoDiscoverConfig::Detailed { include_globs, exclude_globs } => r == ({
                    &&& !(exists|i: int|
                        0 <= i < exclude_globs@.len() && spec_glob(
                            #[trigger] view_strings(exclude_globs@)[i],
                            operation_str@,
                        ))
                    &&& (include_globs@.len() > 0 ==> exists|i: int|
                        0 <= i < include_globs@.len() && spec_glob(
                            #[trigger] view_strings(include_globs@)[i],
                            operation_str@,
                        ))
                }),
            },
    {
        match self {
            AutoDiscoverConfig::Enabled(_) => true,
            AutoDiscoverConfig::Detailed { include_globs, exclude_globs } => {
                if any_pattern_matches(exclude_globs, operation_str) {
                    return false;
                }
                if include_globs.len() > 0 {
                    return any_pattern_matches(include_globs, operation_str);
                }
                true
            },
        }
    }
}

fn copy_strings(v: &Vec<String>) -> (r: Vec<String>)
    ensures
        r@.len() == v@.len(),
        forall|t: int| 0 <= t < v@.len() ==> (#[trigger] r@[t])@ == v@[t]@,
{
    let n = v.len();
    let mut out: Vec<String> = Vec::new();
    let mut i: usize = 0;
    while i < n
        invariant
            n == v@.len(),
            i <= n,
            out@.len() == i,
            forall|t: int| 0 <= t < i ==> (#[trigger] out@[t])@ == v@[t]@,
        decreases n - i,
    {
        out.push(v[i].clone());
        i = i + 1;
    }
    out
}

fn any_pattern_matches(patterns: &Vec<String>, operation_str: &str) -> (r: bool)
    ensures
        r == exists|i: int|
            0 <= i < patterns@.len() && spec_glob(
                #[trigger] view_strings(patterns@)[i],
                operation_str@,
            ),
{
    let n = patterns.len();
    let mut i: usize = 0;
    while i < n
        invariant
            n == patterns@.len(),
            i <= n,
            forall|t: int|
                0 <= t < i ==> !spec_glob(#[trigger] view_strings(patterns@)[t], operation_str@),
        decreases n - i,
    {
        if matches_pattern(patterns[i].as_str(), operation_str) {
            proof {
                assert(spec_glob(view_strings(patterns@)[i as int], operation_str@));
            }
            return true;
        }
        proof {
            assert(view_strings(patterns@)[i as int] == (patterns@[i as int])@);
        }
        i = i + 1;
    }
    false
}

} // verus!
