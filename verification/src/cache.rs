//! The tools-surface cache and the profile fingerprint that guards it.
//! A cached surface is keyed by session token and tagged with the
//! fingerprint of the profile attributes that shape the surface; any
//! change to those attributes changes the fingerprint, so the next lookup
//! misses and the surface is rebuilt.

use crate::aggregate::ToolSurfaceMerge;
use crate::canon::{sort_fields, spec_json_text, spec_sort_fields};
use crate::config::Profile;
use crate::digest::{sha256_hex_of_str, spec_sha256_hex_of_str};
use crate::json::{
    lemma_view_arr_index, lemma_view_obj_index, view_arr, view_json, view_obj, Json, SpecJson,
};
use crate::text::{str_eq, view_strings};
use crate::transforms::{view_pipeline, SpecToolOverride, ToolOverride, TransformPipeline};
use vstd::prelude::*;

verus! {

broadcast use vstd::std_specs::vec::group_vec_axioms, vstd::seq::group_seq_axioms;

/// A string list as a JSON array of strings.
pub open spec fn spec_strings_json(l: Seq<Seq<char>>) -> SpecJson {
    SpecJson::Arr(l.map(|i: int, s: Seq<char>| SpecJson::Str(s)))
}

fn strings_json(l: &Vec<String>) -> (r: Json)
    ensures
        view_json(r) == spec_strings_json(view_strings(l@)),
{
    let n = l.len();
    let mut items: Vec<Json> = Vec::new();
    let mut i: usize = 0;
    while i < n
        invariant
            n == l@.len(),
            i <= n,
            items@.len() == i,
            forall|t: int|
                0 <= t < i ==> view_json(#[trigger] items@[t]) == SpecJson::Str((l@[t])@),
        decreases n - i,
    {
        items.push(Json::Str(l[i].clone()));
        i = i + 1;
    }
    let r = Json::Arr(items);
    proof {
        lemma_view_arr_index(r->Arr_0@);
        let lhs = view_json(r)->Arr_0;
        let rhs = spec_strings_json(view_strings(l@))->Arr_0;
        assert forall|t: int| 0 <= t < n implies lhs[t] == rhs[t] by {
            assert(lhs[t] == view_json((r->Arr_0)@[t]));
            assert(rhs[t] == SpecJson::Str(view_strings(l@)[t]));
        }
        assert(lhs =~= rhs);
    }
    r
}

/// One override as a canonical JSON object: present fields only, keys in
/// sorted order.
pub open spec fn spec_override_json(o: SpecToolOverride) -> SpecJson {
    SpecJson::Obj(
        (match o.description {
            Some(d) => seq![("description"@, SpecJson::Str(d))],
            None => Seq::empty(),
        }) + seq![
            (
                "paramRenames"@,
                SpecJson::Obj(
                    o.param_renames.map(
                        |i: int, p: (Seq<char>, Seq<char>)| (p.0, SpecJson::Str(p.1)),
                    ),
                ),
            ),
        ] + (match o.rename {
            Some(rn) => seq![("rename"@, SpecJson::Str(rn))],
            None => Seq::empty(),
        }),
    )
}

fn override_json(o: &ToolOverride) -> (r: Json)
    ensures
        view_json(r) == spec_override_json(crate::transforms::view_override(*o)),
{
    let mut fields: Vec<(String, Json)> = Vec::new();
    if let Some(d) = &o.description {
        fields.push(("description".to_owned(), Json::Str(d.clone())));
    }
    let n = o.param_renames.len();
    let mut renames: Vec<(String, Json)> = Vec::new();
    let mut i: usize = 0;
    while i < n
        invariant
            n == o.param_renames@.len(),
            i <= n,
            renames@.len() == i,
            forall|t: int|
                0 <= t < i ==> (#[trigger] renames@[t]).0@ == o.param_renames@[t].0@ && view_json(
                    renames@[t].1,
                ) == SpecJson::Str(o.param_renames@[t].1@),
        decreases n - i,
    {
        renames.push((o.param_renames[i].0.clone(), Json::Str(o.param_renames[i].1.clone())));
        i = i + 1;
    }
    let renames_obj = Json::Obj(renames);
    proof {
        lemma_view_obj_index(renames_obj->Obj_0@);
        let lhs = view_json(renames_obj)->Obj_0;
        let rhs = crate::transforms::view_override(*o).param_renames.map(
            |i: int, p: (Seq<char>, Seq<char>)| (p.0, SpecJson::Str(p.1)),
        );
        assert forall|t: int| 0 <= t < n implies lhs[t] == rhs[t] by {
            assert(lhs[t] == (((renames_obj->Obj_0)@[t]).0@, view_json(
                (renames_obj->Obj_0)@[t].1,
            )));
        }
        assert(lhs =~= rhs);
    }
    fields.push(("paramRenames".to_owned(), renames_obj));
    if let Some(rn) = &o.rename {
        fields.push(("rename".to_owned(), Json::Str(rn.clone())));
    }
    let r = Json::Obj(fields);
    proof {
        lemma_view_obj_index(r->Obj_0@);
        let lhs = view_json(r)->Obj_0;
        let rhs = spec_override_json(crate::transforms::view_override(*o))->Obj_0;
        assert(lhs.len() == rhs.len());
        assert forall|t: int| 0 <= t < lhs.len() implies lhs[t] == rhs[t] by {
            assert(lhs[t] == ((r->Obj_0)@[t].0@, view_json((r->Obj_0)@[t].1)));
        }
        assert(lhs =~= rhs);
    }
    r
}

/// The transform pipeline as canonical JSON: overrides keyed by original
/// tool name, key-sorted.
pub open spec fn spec_transforms_json(p: Seq<(Seq<char>, SpecToolOverride)>) -> SpecJson {
    SpecJson::Obj(
        spec_sort_fields(
            p.map(|i: int, e: (Seq<char>, SpecToolOverride)| (e.0, spec_override_json(e.1))),
        ),
    )
}

fn transforms_json(p: &TransformPipeline) -> (r: Json)
    ensures
        view_json(r) == spec_transforms_json(view_pipeline(*p)),
{
    let n = p.tool_overrides.len();
    let mut fields: Vec<(String, Json)> = Vec::new();
    let mut i: usize = 0;
    while i < n
        invariant
            n == p.tool_overrides@.len(),
            i <= n,
            fields@.len() == i,
            forall|t: int|
                0 <= t < i ==> (#[trigger] fields@[t]).0@ == p.tool_overrides@[t].0@ && view_json(
                    fields@[t].1,
                ) == spec_override_json(
                    crate::transforms::view_override(p.tool_overrides@[t].1),
                ),
        decreases n - i,
    {
        let e = override_json(&p.tool_overrides[i].1);
        fields.push((p.tool_overrides[i].0.clone(), e));
        i = i + 1;
    }
    proof {
        lemma_view_obj_index(fields@);
        let lhs = view_obj(fields@);
        let rhs = view_pipeline(*p).map(
            |i: int, e: (Seq<char>, SpecToolOverride)| (e.0, spec_override_json(e.1)),
        );
        assert forall|t: int| 0 <= t < n implies lhs[t] == rhs[t] by {
            assert(lhs[t] == ((fields@[t]).0@, view_json(fields@[t].1)));
            assert(view_pipeline(*p)[t] == (
                p.tool_overrides@[t].0@,
                crate::transforms::view_override(p.tool_overrides@[t].1),
            ));
        }
        assert(lhs =~= rhs);
    }
    let sorted = sort_fields(fields);
    Json::Obj(sorted)
}

/// The canonical value a profile fingerprint hashes: exactly the profile
/// attributes that shape the exposed tool surface and its routing.
pub open spec fn spec_fingerprint_source(
    profile_id: Seq<char>,
    tenant_id: Seq<char>,
    allow_partial: bool,
    source_ids: Seq<Seq<char>>,
    enabled_tools: Seq<Seq<char>>,
    transforms: Seq<(Seq<char>, SpecToolOverride)>,
) -> SpecJson {
    SpecJson::Obj(
        seq![
            ("allowPartialUpstreams"@, SpecJson::Bool(allow_partial)),
            ("enabledTools"@, spec_strings_json(enabled_tools)),
            ("profileId"@, SpecJson::Str(profile_id)),
            ("sourceIds"@, spec_strings_json(source_ids)),
            ("tenantId"@, SpecJson::Str(tenant_id)),
            ("transforms"@, spec_transforms_json(transforms)),
        ],
    )
}

/// The fingerprint text a profile hashes to.
pub open spec fn spec_profile_fingerprint(p: Profile) -> Seq<char> {
    spec_sha256_hex_of_str(
        spec_json_text(
            spec_fingerprint_source(
                p.id@,
                p.tenant_id@,
                p.allow_partial_upstreams,
                view_strings(p.source_ids@),
                view_strings(p.enabled_tools@),
                view_pipeline(p.transforms),
            ),
        ),
    )
}

/// Fingerprint the surface-shaping attributes of a profile.
pub fn profile_fingerprint(p: &Profile) -> (r: String)
    ensures
        r@ == spec_profile_fingerprint(*p),
{
    let mut fields: Vec<(String, Json)> = Vec::new();
    fields.push(("allowPartialUpstreams".to_owned(), Json::Bool(p.allow_partial_upstreams)));
    fields.push(("enabledTools".to_owned(), strings_json(&p.enabled_tools)));
    fields.push(("profileId".to_owned(), Json::Str(p.id.clone())));
    fields.push(("sourceIds".to_owned(), strings_json(&p.source_ids)));
    fields.push(("tenantId".to_owned(), Json::Str(p.tenant_id.clone())));
    fields.push(("transforms".to_owned(), transforms_json(&p.transforms)));
    let v = Json::Obj(fields);
    proof {
        lemma_view_obj_index(v->Obj_0@);
        let lhs = view_json(v)->Obj_0;
        let rhs = spec_fingerprint_source(
            p.id@,
            p.tenant_id@,
            p.allow_partial_upstreams,
            view_strings(p.source_ids@),
            view_strings(p.enabled_tools@),
            view_pipeline(p.transforms),
        )->Obj_0;
        assert(lhs.len() == rhs.len());
        assert forall|t: int| 0 <= t < lhs.len() implies lhs[t] == rhs[t] by {
            assert(lhs[t] == ((v->Obj_0)@[t].0@, view_json((v->Obj_0)@[t].1)));
        }
        assert(lhs =~= rhs);
    }
    let text = crate::canon::json_to_string(&v);
    sha256_hex_of_str(text.as_str())
}

/// Any change to the enabled-tools allowlist, the source-id list or the
/// transforms changes the value the fingerprint hashes, so a cache entry
/// tagged with the old fingerprint source can never be mistaken for the
/// new surface.
pub proof fn lemma_fingerprint_source_sensitive(
    profile_id: Seq<char>,
    tenant_id: Seq<char>,
    allow_partial: bool,
    source_ids1: Seq<Seq<char>>,
    enabled1: Seq<Seq<char>>,
    transforms1: Seq<(Seq<char>, SpecToolOverride)>,
    source_ids2: Seq<Seq<char>>,
    enabled2: Seq<Seq<char>>,
    transforms2: Seq<(Seq<char>, SpecToolOverride)>,
)
    requires
        enabled1 != enabled2 || source_ids1 != source_ids2 || spec_transforms_json(transforms1)
            != spec_transforms_json(transforms2),
    ensures
        spec_fingerprint_source(
            profile_id,
            tenant_id,
            allow_partial,
            source_ids1,
            enabled1,
            transforms1,
        ) != spec_fingerprint_source(
            profile_id,
            tenant_id,
            allow_partial,
            source_ids2,
            enabled2,
            transforms2,
        ),
{
    let a = spec_fingerprint_source(
        profile_id,
        tenant_id,
        allow_partial,
        source_ids1,
        enabled1,
        transforms1,
    );
    let b = spec_fingerprint_source(
        profile_id,
        tenant_id,
        allow_partial,
        source_ids2,
        enabled2,
        transforms2,
    );
    if a == b {
        assert(a->Obj_0[1] == b->Obj_0[1]);
        assert(a->Obj_0[3] == b->Obj_0[3]);
        assert(a->Obj_0[5] == b->Obj_0[5]);
        if enabled1 != enabled2 {
            lemma_strings_json_injective(enabled1, enabled2);
        } else if source_ids1 != source_ids2 {
            lemma_strings_json_injective(source_ids1, source_ids2);
        }
    }
}

/// Rendering string lists as JSON arrays is injective.
proof fn lemma_strings_json_injective(l1: Seq<Seq<char>>, l2: Seq<Seq<char>>)
    requires
        l1 != l2,
    ensures
        spec_strings_json(l1) != spec_strings_json(l2),
{
    if spec_strings_json(l1) == spec_strings_json(l2) {
        let a1 = spec_strings_json(l1)->Arr_0;
        let a2 = spec_strings_json(l2)->Arr_0;
        assert(a1.len() == l1.len());
        assert(a2.len() == l2.len());
        if l1.len() == l2.len() {
            assert forall|t: int| 0 <= t < l1.len() implies l1[t] == l2[t] by {
                assert(a1[t] == SpecJson::Str(l1[t]));
                assert(a2[t] == SpecJson::Str(l2[t]));
            }
            assert(l1 =~= l2);
        }
    }
}

/// One cached tools surface.
#[derive(Debug)]
struct CacheEntry {
    profile_id: String,
    fingerprint: String,
    expires_at_ms: u64,
    surface: ToolSurfaceMerge,
}

/// The tools-surface cache, keyed by session token.
#[derive(Debug)]
pub struct ToolSurfaceCache {
    ttl_ms: u64,
    entries: Vec<(String, CacheEntry)>,
}

/// Whether some entry of the list is a live hit for the token and
/// fingerprint.
spec fn spec_entries_hit(
    s: Seq<(String, CacheEntry)>,
    token: Seq<char>,
    fingerprint: Seq<char>,
    now_ms: u64,
) -> bool {
    exists|i: int|
        {
            &&& 0 <= i < s.len()
            &&& (#[trigger] s[i]).0@ == token
            &&& s[i].1.fingerprint@ == fingerprint
            &&& s[i].1.expires_at_ms > now_ms
        }
}

/// Whether some entry of the list is tagged with the profile.
spec fn spec_entries_profile(s: Seq<(String, CacheEntry)>, profile_id: Seq<char>) -> bool {
    exists|i: int| 0 <= i < s.len() && (#[trigger] s[i]).1.profile_id@ == profile_id
}

/// Appending one entry adds exactly its hits.
proof fn lemma_entries_push(prev: Seq<(String, CacheEntry)>, x: (String, CacheEntry))
    ensures
        forall|t: Seq<char>, f: Seq<char>, n: u64|
            #[trigger] spec_entries_hit(prev.push(x), t, f, n) <==> (spec_entries_hit(
                prev,
                t,
                f,
                n,
            ) || (x.0@ == t && x.1.fingerprint@ == f && x.1.expires_at_ms > n)),
        forall|p: Seq<char>|
            #[trigger] spec_entries_profile(prev.push(x), p) <==> (spec_entries_profile(prev, p)
                || x.1.profile_id@ == p),
{
    assert forall|t: Seq<char>, f: Seq<char>, n: u64|
        #[trigger] spec_entries_hit(prev.push(x), t, f, n) <==> (spec_entries_hit(prev, t, f, n)
            || (x.0@ == t && x.1.fingerprint@ == f && x.1.expires_at_ms > n)) by {
        if spec_entries_hit(prev.push(x), t, f, n) {
            let i = choose|i: int|
                0 <= i < prev.push(x).len() && (#[trigger] prev.push(x)[i]).0@ == t && prev.push(
                    x,
                )[i].1.fingerprint@ == f && prev.push(x)[i].1.expires_at_ms > n;
            if i < prev.len() {
                assert(prev[i] == prev.push(x)[i]);
            }
        }
        if spec_entries_hit(prev, t, f, n) {
            let i = choose|i: int|
                0 <= i < prev.len() && (#[trigger] prev[i]).0@ == t && prev[i].1.fingerprint@ == f
                    && prev[i].1.expires_at_ms > n;
            assert(prev.push(x)[i] == prev[i]);
        }
        if x.0@ == t && x.1.fingerprint@ == f && x.1.expires_at_ms > n {
            assert(prev.push(x)[prev.len() as int] == x);
        }
    }
    assert forall|p: Seq<char>|
        #[trigger] spec_entries_profile(prev.push(x), p) <==> (spec_entries_profile(prev, p)
            || x.1.profile_id@ == p) by {
        if spec_entries_profile(prev.push(x), p) {
            let i = choose|i: int|
                0 <= i < prev.push(x).len() && (#[trigger] prev.push(x)[i]).1.profile_id@ == p;
            if i < prev.len() {
                assert(prev[i] == prev.push(x)[i]);
            }
        }
        if spec_entries_profile(prev, p) {
            let i = choose|i: int|
                0 <= i < prev.len() && (#[trigger] prev[i]).1.profile_id@ == p;
            assert(prev.push(x)[i] == prev[i]);
        }
        if x.1.profile_id@ == p {
            assert(prev.push(x)[prev.len() as int] == x);
        }
    }
}

impl ToolSurfaceCache {
    /// Whether a live entry for the token carries this fingerprint.
    pub closed spec fn spec_hit(
        self,
        token: Seq<char>,
        fingerprint: Seq<char>,
        now_ms: u64,
    ) -> bool {
        spec_entries_hit(self.entries@, token, fingerprint, now_ms)
    }

    /// Whether a live hit for the token and fingerprint would hand back
    /// exactly this surface.
    pub closed spec fn spec_stored(
        self,
        token: Seq<char>,
        fingerprint: Seq<char>,
        now_ms: u64,
        surface: ToolSurfaceMerge,
    ) -> bool {
        exists|i: int|
            {
                &&& 0 <= i < self.entries@.len()
                &&& (#[trigger] self.entries@[i]).0@ == token
                &&& self.entries@[i].1.fingerprint@ == fingerprint
                &&& self.entries@[i].1.expires_at_ms > now_ms
                &&& self.entries@[i].1.surface == surface
            }
    }

    /// Whether any entry is tagged with the profile.
    pub closed spec fn spec_has_profile_entry(self, profile_id: Seq<char>) -> bool {
        spec_entries_profile(self.entries@, profile_id)
    }

    /// The configured entry lifetime.
    pub closed spec fn spec_ttl_ms(self) -> u64 {
        self.ttl_ms
    }

    /// An empty cache with the given entry lifetime.
    pub fn new(ttl_ms: u64) -> (r: ToolSurfaceCache)
        ensures
            forall|t: Seq<char>, f: Seq<char>, now: u64| !r.spec_hit(t, f, now),
            r.spec_ttl_ms() == ttl_ms,
    {
        ToolSurfaceCache { ttl_ms, entries: Vec::new() }
    }

    /// Look up the surface cached for a session token under the current
    /// fingerprint. A hit needs an unexpired entry whose fingerprint
    /// matches, and hands back exactly the surface that entry stores. On
    /// a miss every entry of the token — stale, expired or differently
    /// fingerprinted — is evicted, forcing a rebuild; other sessions'
    /// entries stay.
    pub fn get<'a>(&'a mut self, token: &str, fingerprint: &str, now_ms: u64) -> (r: Option<
        &'a ToolSurfaceMerge,
    >)
        ensures
            match r {
                Some(s) => {
                    &&& old(self).spec_hit(token@, fingerprint@, now_ms)
                    &&& *final(self) == *old(self)
                    &&& final(self).spec_stored(token@, fingerprint@, now_ms, *s)
                },
                None => {
                    &&& !old(self).spec_hit(token@, fingerprint@, now_ms)
                    &&& forall|f: Seq<char>, n: u64| !final(self).spec_hit(token@, f, n)
                    &&& forall|t: Seq<char>, f: Seq<char>, n: u64|
                        t != token@ ==> (final(self).spec_hit(t, f, n) <==> old(self).spec_hit(
                            t,
                            f,
                            n,
                        ))
                },
            },
    {
        let n = self.entries.len();
        let mut i: usize = 0;
        while i < n
            invariant
                n == self.entries@.len(),
                self == old(self),
                i <= n,
                forall|t: int|
                    0 <= t < i ==> !((#[trigger] self.entries@[t]).0@ == token@
                        && self.entries@[t].1.fingerprint@ == fingerprint@
                        && self.entries@[t].1.expires_at_ms > now_ms),
            decreases n - i,
        {
            if str_eq(self.entries[i].0.as_str(), token) && str_eq(
                self.entries[i].1.fingerprint.as_str(),
                fingerprint,
            ) && self.entries[i].1.expires_at_ms > now_ms {
                return Some(&self.entries[i].1.surface);
            }
            i = i + 1;
        }
        // Miss: drop whatever the token had, so the caller rebuilds.
        self.invalidate(token);
        None
    }

    /// Cache a surface for a session token under a fingerprint, replacing
    /// whatever the token had. With a positive lifetime that fits the
    /// clock, the token then hits exactly on this fingerprint until the
    /// entry expires; other sessions' entries stay.
    pub fn put(
        &mut self,
        profile_id: &str,
        token: &str,
        fingerprint: String,
        surface: ToolSurfaceMerge,
        now_ms: u64,
    )
        ensures
            forall|f: Seq<char>, n: u64|
                final(self).spec_hit(token@, f, n) <==> (f == fingerprint@ && (if old(
                    self,
                ).spec_ttl_ms() < u64::MAX - now_ms {
                    (now_ms + old(self).spec_ttl_ms()) as int
                } else {
                    u64::MAX as int
                }) > n),
            forall|t: Seq<char>, f: Seq<char>, n: u64|
                t != token@ ==> (final(self).spec_hit(t, f, n) <==> old(self).spec_hit(t, f, n)),
    {
        let expires_at_ms = if self.ttl_ms < u64::MAX - now_ms {
            now_ms + self.ttl_ms
        } else {
            u64::MAX
        };
        let ghost fpv = fingerprint@;
        self.invalidate(token);
        let ghost midself = *self;
        let ghost mid = self.entries@;
        self.entries.push(
            (
                token.to_owned(),
                CacheEntry {
                    profile_id: profile_id.to_owned(),
                    fingerprint,
                    expires_at_ms,
                    surface,
                },
            ),
        );
        proof {
            lemma_entries_push(mid, self.entries@.last());
            assert(self.entries@.last().0@ == token@);
            assert(self.entries@.last().1.fingerprint@ == fpv);
            assert(self.entries@.last().1.expires_at_ms == expires_at_ms);
            assert forall|f: Seq<char>, n: u64|
                spec_entries_hit(self.entries@, token@, f, n) <==> (f == fpv && expires_at_ms
                    > n) by {
                assert(!midself.spec_hit(token@, f, n));
                assert(!spec_entries_hit(mid, token@, f, n));
            }
        }
    }

    /// Drop the entries of one session token; other sessions' entries
    /// stay.
    pub fn invalidate(&mut self, token: &str)
        ensures
            forall|f: Seq<char>, now: u64| !final(self).spec_hit(token@, f, now),
            forall|t: Seq<char>, f: Seq<char>, now: u64|
                t != token@ ==> (final(self).spec_hit(t, f, now) <==> old(self).spec_hit(
                    t,
                    f,
                    now,
                )),
    {
        let ghost orig = self.entries@;
        let mut kept: Vec<(String, CacheEntry)> = Vec::new();
        let ghost consumed: Seq<(String, CacheEntry)> = Seq::empty();
        while self.entries.len() > 0
            invariant
                forall|t: int| 0 <= t < kept@.len() ==> (#[trigger] kept@[t]).0@ != token@,
                forall|t: Seq<char>, f: Seq<char>, n: u64|
                    t != token@ ==> (#[trigger] spec_entries_hit(orig, t, f, n) <==> (
                    spec_entries_hit(self.entries@, t, f, n) || spec_entries_hit(kept@, t, f, n))),
            decreases self.entries@.len(),
        {
            let ghost before = self.entries@;
            let ghost kept_before = kept@;
            if let Some(e) = self.entries.pop() {
                let keep = !str_eq(e.0.as_str(), token);
                let ghost ev = e;
                if keep {
                    kept.push(e);
                }
                proof {
                    assert(before == self.entries@.push(ev));
                    lemma_entries_push(self.entries@, ev);
                    if keep {
                        assert(kept@ == kept_before.push(ev));
                        lemma_entries_push(kept_before, ev);
                    }
                }
            }
        }
        let ghost drained: Seq<(String, CacheEntry)> = self.entries@;
        while kept.len() > 0
            invariant
                forall|t: int|
                    0 <= t < self.entries@.len() ==> (#[trigger] self.entries@[t]).0@ != token@,
                forall|t: int| 0 <= t < kept@.len() ==> (#[trigger] kept@[t]).0@ != token@,
                forall|t: Seq<char>, f: Seq<char>, n: u64|
                    t != token@ ==> (#[trigger] spec_entries_hit(orig, t, f, n) <==> (
                    spec_entries_hit(self.entries@, t, f, n) || spec_entries_hit(kept@, t, f, n))),
            decreases kept@.len(),
        {
            let ghost before = kept@;
            let ghost ents_before = self.entries@;
            if let Some(e) = kept.pop() {
                let ghost ev = e;
                self.entries.push(e);
                proof {
                    assert(before == kept@.push(ev));
                    lemma_entries_push(kept@, ev);
                    assert(self.entries@ == ents_before.push(ev));
                    lemma_entries_push(ents_before, ev);
                }
            }
        }
        proof {
            assert forall|f: Seq<char>, now: u64| !spec_entries_hit(
                self.entries@,
                token@,
                f,
                now,
            ) by {
                if spec_entries_hit(self.entries@, token@, f, now) {
                    let i = choose|i: int|
                        0 <= i < self.entries@.len() && (#[trigger] self.entries@[i]).0@ == token@
                            && self.entries@[i].1.fingerprint@ == f
                            && self.entries@[i].1.expires_at_ms > now;
                }
            }
        }
    }

    /// Drop every entry tagged with a profile; remaining hits all existed
    /// before.
    pub fn invalidate_profile(&mut self, profile_id: &str)
        ensures
            !final(self).spec_has_profile_entry(profile_id@),
            forall|t: Seq<char>, f: Seq<char>, now: u64|
                final(self).spec_hit(t, f, now) ==> old(self).spec_hit(t, f, now),
    {
        let ghost orig = self.entries@;
        let mut kept: Vec<(String, CacheEntry)> = Vec::new();
        while self.entries.len() > 0
            invariant
                forall|t: int|
                    0 <= t < kept@.len() ==> (#[trigger] kept@[t]).1.profile_id@ != profile_id@,
                forall|t: Seq<char>, f: Seq<char>, n: u64|
                    #[trigger] spec_entries_hit(kept@, t, f, n) ==> spec_entries_hit(
                        orig,
                        t,
                        f,
                        n,
                    ),
                forall|t: Seq<char>, f: Seq<char>, n: u64|
                    #[trigger] spec_entries_hit(self.entries@, t, f, n) ==> spec_entries_hit(
                        orig,
                        t,
                        f,
                        n,
                    ),
            decreases self.entries@.len(),
        {
            let ghost kept_before = kept@;
            let ghost ents_before = self.entries@;
            if let Some(e) = self.entries.pop() {
                let keep = !str_eq(e.1.profile_id.as_str(), profile_id);
                let ghost ev = e;
                if keep {
                    kept.push(e);
                }
                proof {
                    assert(ents_before == self.entries@.push(ev));
                    lemma_entries_push(self.entries@, ev);
                    if keep {
                        assert(kept@ == kept_before.push(ev));
                        lemma_entries_push(kept_before, ev);
                    }
                    assert forall|t: Seq<char>, f: Seq<char>, n: u64|
                        #[trigger] spec_entries_hit(kept@, t, f, n) implies spec_entries_hit(
                        orig,
                        t,
                        f,
                        n,
                    ) by {
                        if !spec_entries_hit(kept_before, t, f, n) {
                            assert(spec_entries_hit(ents_before, t, f, n)) by {
                                assert(ents_before[ents_before.len() - 1] == ev);
                            }
                        }
                    }
                    assert forall|t: Seq<char>, f: Seq<char>, n: u64|
                        #[trigger] spec_entries_hit(self.entries@, t, f, n) implies spec_entries_hit(
                        orig,
                        t,
                        f,
                        n,
                    ) by {
                        assert(spec_entries_hit(ents_before, t, f, n));
                    }
                }
            }
        }
        while kept.len() > 0
            invariant
                forall|t: int|
                    0 <= t < self.entries@.len() ==> (#[trigger] self.entries@[t]).1.profile_id@
                        != profile_id@,
                forall|t: int|
                    0 <= t < kept@.len() ==> (#[trigger] kept@[t]).1.profile_id@ != profile_id@,
                forall|t: Seq<char>, f: Seq<char>, n: u64|
                    #[trigger] spec_entries_hit(kept@, t, f, n) ==> spec_entries_hit(
                        orig,
                        t,
                        f,
                        n,
                    ),
                forall|t: Seq<char>, f: Seq<char>, n: u64|
                    #[trigger] spec_entries_hit(self.entries@, t, f, n) ==> spec_entries_hit(
                        orig,
                        t,
                        f,
                        n,
                    ),
            decreases kept@.len(),
        {
            let ghost before = kept@;
            let ghost ents_before = self.entries@;
            if let Some(e) = kept.pop() {
                let ghost ev = e;
                self.entries.push(e);
                proof {
                    assert(before == kept@.push(ev));
                    lemma_entries_push(kept@, ev);
                    assert(self.entries@ == ents_before.push(ev));
                    lemma_entries_push(ents_before, ev);
                    assert forall|t: Seq<char>, f: Seq<char>, n: u64|
                        #[trigger] spec_entries_hit(kept@, t, f, n) implies spec_entries_hit(
                        orig,
                        t,
                        f,
                        n,
                    ) by {
                        assert(spec_entries_hit(before, t, f, n));
                    }
                    assert forall|t: Seq<char>, f: Seq<char>, n: u64|
                        #[trigger] spec_entries_hit(self.entries@, t, f, n) implies spec_entries_hit(
                        orig,
                        t,
                        f,
                        n,
                    ) by {
                        if !spec_entries_hit(ents_before, t, f, n) {
                            assert(spec_entries_hit(before, t, f, n)) by {
                                assert(before[before.len() - 1] == ev);
                            }
                        }
                    }
                }
            }
        }
        proof {
            assert forall|p: Seq<char>| p == profile_id@ implies !spec_entries_profile(
                self.entries@,
                p,
            ) by {
                if spec_entries_profile(self.entries@, p) {
                    let i = choose|i: int|
                        0 <= i < self.entries@.len() && (#[trigger] self.entries@[i]).1.profile_id@
                            == p;
                }
            }
        }
    }
}

} // verus!
