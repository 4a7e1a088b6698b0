//! Catalog aggregation: merging tool, resource and prompt lists from many
//! sources into one exposed surface with deterministic, collision-safe
//! naming, and the routing table from exposed names back to sources.

use crate::ids::{colon_free, spec_prefixed, spec_resource_urn};
use crate::json::view_json;
use crate::model::{view_resource, view_tool, ResourceDef, SpecToolDef, ToolDef};
use crate::text::{str_contains_char, str_eq, view_strings};
use vstd::prelude::*;

verus! {

broadcast use vstd::std_specs::vec::group_vec_axioms, vstd::seq::group_seq_axioms;

/// Where a routed tool call is executed.
#[derive(Debug, Clone, Copy, PartialEq, Eq, Structural)]
pub enum ToolRouteKind {
    Upstream,
    SharedLocal,
    TenantLocal,
}

/// The route from an exposed tool name back to its source.
#[derive(Debug)]
pub struct ToolRoute {
    pub kind: ToolRouteKind,
    pub source_id: String,
    pub original_name: String,
}

/// The mathematical view of a route.
pub struct SpecToolRoute {
    pub kind: ToolRouteKind,
    pub source_id: Seq<char>,
    pub original_name: Seq<char>,
}

pub open spec fn view_route(r: ToolRoute) -> SpecToolRoute {
    SpecToolRoute { kind: r.kind, source_id: r.source_id@, original_name: r.original_name@ }
}

/// One tool after per-source deduplication, allowlisting and transforms:
/// `tool.name` is the post-transform base name, before collision prefixing.
#[derive(Debug)]
pub struct ToolRecord {
    pub kind: ToolRouteKind,
    pub source_id: String,
    pub original_name: String,
    pub tool: ToolDef,
}

/// The merged tool surface: exposed tools, routes, and the base names that
/// collided and therefore require prefixing.
#[derive(Debug)]
pub struct ToolSurfaceMerge {
    pub tools: Vec<ToolDef>,
    pub routes: Vec<(String, ToolRoute)>,
    pub ambiguous_names: Vec<String>,
}

/// How many records expose a given post-transform base name.
pub open spec fn spec_name_count(names: Seq<Seq<char>>, x: Seq<char>) -> int
    decreases names.len(),
{
    if names.len() == 0 {
        0
    } else {
        spec_name_count(names.drop_last(), x) + if names.last() == x {
            1int
        } else {
            0int
        }
    }
}

/// The base names of a record list.
pub open spec fn spec_base_names(records: Seq<ToolRecord>) -> Seq<Seq<char>> {
    records.map(|i: int, r: ToolRecord| r.tool.name@)
}

/// The name a record is finally exposed under: prefixed with its source on
/// collision, the bare base name otherwise.
pub open spec fn spec_final_name(records: Seq<ToolRecord>, i: int) -> Seq<char> {
    let bases = spec_base_names(records);
    if spec_name_count(bases, bases[i]) > 1 {
        spec_prefixed(records[i].source_id@, bases[i])
    } else {
        bases[i]
    }
}

/// The route of a record.
pub open spec fn spec_record_route(records: Seq<ToolRecord>, i: int) -> SpecToolRoute {
    SpecToolRoute {
        kind: records[i].kind,
        source_id: records[i].source_id@,
        original_name: records[i].original_name@,
    }
}

/// A record is routed: some entry carries its final name and route.
pub open spec fn spec_routed(
    routes: Seq<(String, ToolRoute)>,
    records: Seq<ToolRecord>,
    i: int,
) -> bool {
    exists|e: int|
        {
            &&& 0 <= e < routes.len()
            &&& (#[trigger] routes[e]).0@ == spec_final_name(records, i)
            &&& view_route(routes[e].1) == spec_record_route(records, i)
        }
}

/// A record also has its prefixed alias routed: some entry carries
/// `source_id:base_name` with the record's route, so prefixed lookups
/// succeed even without a collision.
pub open spec fn spec_alias_routed(
    routes: Seq<(String, ToolRoute)>,
    records: Seq<ToolRecord>,
    i: int,
) -> bool {
    exists|e: int|
        {
            &&& 0 <= e < routes.len()
            &&& (#[trigger] routes[e]).0@ == spec_prefixed(
                records[i].source_id@,
                spec_base_names(records)[i],
            )
            &&& view_route(routes[e].1) == spec_record_route(records, i)
        }
}

/// A route entry belongs to a record: it carries the record's route under
/// its final name, or under the prefixed alias of a collision-free record.
pub open spec fn spec_route_belongs(
    routes: Seq<(String, ToolRoute)>,
    records: Seq<ToolRecord>,
    e: int,
) -> bool {
    exists|i: int|
        {
            &&& 0 <= i < records.len()
            &&& view_route(routes[e].1) == #[trigger] spec_record_route(records, i)
            &&& (routes[e].0@ == spec_final_name(records, i) || (spec_name_count(
                spec_base_names(records),
                spec_base_names(records)[i],
            ) == 1 && routes[e].0@ == spec_prefixed(
                records[i].source_id@,
                spec_base_names(records)[i],
            )))
        }
}

proof fn lemma_name_count_index(names: Seq<Seq<char>>, x: Seq<char>)
    ensures
        spec_name_count(names, x) > 0 <==> names.contains(x),
        spec_name_count(names, x) >= 0,
    decreases names.len(),
{
    if names.len() > 0 {
        lemma_name_count_index(names.drop_last(), x);
        if names.last() == x {
            assert(names[names.len() - 1] == x);
        }
        if names.contains(x) && names.last() != x {
            let t = choose|t: int| 0 <= t < names.len() && names[t] == x;
            assert(names.drop_last()[t] == x);
        }
        if names.drop_last().contains(x) {
            let t = choose|t: int|
                0 <= t < names.drop_last().len() && names.drop_last()[t] == x;
            assert(names[t] == x);
        }
    }
}

/// Count the records exposing a base name.
fn count_base_name(records: &Vec<ToolRecord>, x: &str) -> (r: usize)
    ensures
        r == spec_name_count(spec_base_names(records@), x@),
{
    let ghost bases = spec_base_names(records@);
    let n = records.len();
    let mut count: usize = 0;
    let mut i: usize = 0;
    while i < n
        invariant
            n == records@.len(),
            bases == spec_base_names(records@),
            bases.len() == n,
            forall|t: int| 0 <= t < n ==> bases[t] == (#[trigger] records@[t]).tool.name@,
            i <= n,
            count == spec_name_count(bases.take(i as int), x@),
            count <= i,
        decreases n - i,
    {
        proof {
            assert(bases.take(i + 1).drop_last() =~= bases.take(i as int));
            assert(bases.take(i + 1).last() == bases[i as int]);
        }
        if str_eq(records[i].tool.name.as_str(), x) {
            count = count + 1;
        }
        i = i + 1;
    }
    proof {
        assert(bases.take(n as int) =~= bases);
    }
    count
}

/// Merge tool records into the exposed surface.
///
/// Collision policy: a post-transform base name carried by more than one
/// record is ambiguous; every such record is exposed as
/// `source_id:base_name` and the bare name is not routed. A unique base
/// name is exposed bare, with a prefixed alias route. In particular the
/// exposed list keeps exactly one entry per record, and — for colon-free
/// base names — a colliding base name resolves to no route at all.
pub fn merge_tools_surface(records: &Vec<ToolRecord>) -> (r: ToolSurfaceMerge)
    ensures
        r.tools@.len() == records@.len(),
        forall|i: int|
            0 <= i < records@.len() ==> view_tool(#[trigger] r.tools@[i]) == (SpecToolDef {
                name: spec_final_name(records@, i),
                ..view_tool(records@[i].tool)
            }),
        // Ambiguous names are exactly the base names occurring twice or more.
        forall|x: Seq<char>|
            view_strings(r.ambiguous_names@).contains(x) <==> (spec_name_count(
                spec_base_names(records@),
                x,
            ) > 1 && spec_base_names(records@).contains(x)),
        // Every record is routed under its final name.
        forall|i: int| 0 <= i < records@.len() ==> #[trigger] spec_routed(r.routes@, records@, i),
        // A collision-free record is additionally routed under its
        // prefixed alias, so prefixed lookups always succeed.
        forall|i: int|
            0 <= i < records@.len() && spec_name_count(
                spec_base_names(records@),
                spec_base_names(records@)[i],
            ) == 1 ==> #[trigger] spec_alias_routed(r.routes@, records@, i),
        // Every route entry belongs to a record: its final name, or the
        // prefixed alias of a record whose base name is unique.
        forall|e: int|
            0 <= e < r.routes@.len() ==> #[trigger] spec_route_belongs(r.routes@, records@, e),
{
    let ghost bases = spec_base_names(records@);
    let n = records.len();
    let mut tools: Vec<ToolDef> = Vec::new();
    let mut routes: Vec<(String, ToolRoute)> = Vec::new();
    let mut ambiguous: Vec<String> = Vec::new();
    let mut i: usize = 0;
    while i < n
        invariant
            n == records@.len(),
            bases == spec_base_names(records@),
            bases.len() == n,
            forall|t: int| 0 <= t < n ==> bases[t] == (#[trigger] records@[t]).tool.name@,
            i <= n,
            tools@.len() == i,
            forall|t: int|
                0 <= t < i ==> view_tool(#[trigger] tools@[t]) == (SpecToolDef {
                    name: spec_final_name(records@, t),
                    ..view_tool(records@[t].tool)
                }),
            forall|x: Seq<char>|
                #[trigger] view_strings(ambiguous@).contains(x) ==> (spec_name_count(bases, x) > 1
                    && bases.contains(x)),
            forall|t: int|
                0 <= t < i && spec_name_count(bases, bases[t]) > 1 ==> view_strings(
                    ambiguous@,
                ).contains(#[trigger] bases[t]),
            forall|t: int| 0 <= t < i ==> #[trigger] spec_routed(routes@, records@, t),
            forall|t: int|
                0 <= t < i && spec_name_count(bases, bases[t]) == 1 ==> #[trigger] spec_alias_routed(
                    routes@,
                    records@,
                    t,
                ),
            forall|e: int|
                0 <= e < routes@.len() ==> #[trigger] spec_route_belongs(routes@, records@, e),
        decreases n - i,
    {
        let base = records[i].tool.name.clone();
        proof {
            assert(base@ == bases[i as int]);
        }
        let cnt = count_base_name(records, base.as_str());
        proof {
            lemma_name_count_index(bases, base@);
            assert(bases.contains(bases[i as int])) by {
                assert(bases[i as int] == bases[i as int]);
            }
            assert(cnt >= 1);
        }
        let is_collision = cnt > 1;
        let final_name: String = if is_collision {
            let mut p = records[i].source_id.clone();
            p.append(":");
            p.append(base.as_str());
            proof {
                reveal_strlit(":");
                assert(p@ =~= spec_prefixed(records@[i as int].source_id@, bases[i as int]));
            }
            p
        } else {
            base.clone()
        };
        proof {
            assert(final_name@ == spec_final_name(records@, i as int));
        }
        let exposed = records[i].tool.duplicate_with_name(final_name.clone());
        tools.push(exposed);
        let route = ToolRoute {
            kind: records[i].kind,
            source_id: records[i].source_id.clone(),
            original_name: records[i].original_name.clone(),
        };
        let ghost routes_before = routes@;
        routes.push((final_name.clone(), route));
        proof {
            let e0 = routes@.len() - 1;
            assert(routes@[e0].0@ == spec_final_name(records@, i as int));
            assert(view_route(routes@[e0].1) == spec_record_route(records@, i as int));
            assert(forall|q: int| 0 <= q < routes_before.len() ==> routes@[q] == routes_before[q]);
            assert forall|t: int|
                0 <= t < i && spec_name_count(bases, bases[t]) == 1 implies #[trigger] spec_alias_routed(
                routes@,
                records@,
                t,
            ) by {
                assert(spec_alias_routed(routes_before, records@, t));
                let e = choose|e: int|
                    {
                        &&& 0 <= e < routes_before.len()
                        &&& (#[trigger] routes_before[e]).0@ == spec_prefixed(
                            records@[t].source_id@,
                            spec_base_names(records@)[t],
                        )
                        &&& view_route(routes_before[e].1) == spec_record_route(records@, t)
                    };
                assert(routes@[e] == routes_before[e]);
            }
            assert forall|t: int| 0 <= t <= i implies #[trigger] spec_routed(
                routes@,
                records@,
                t,
            ) by {
                if t < i {
                    assert(spec_routed(routes_before, records@, t));
                    let e = choose|e: int|
                        {
                            &&& 0 <= e < routes_before.len()
                            &&& (#[trigger] routes_before[e]).0@ == spec_final_name(records@, t)
                            &&& view_route(routes_before[e].1) == spec_record_route(records@, t)
                        };
                    assert(routes@[e].0@ == spec_final_name(records@, t));
                } else {
                    assert(routes@[e0].0@ == spec_final_name(records@, t));
                }
            }
            assert forall|e: int| 0 <= e < routes@.len() implies #[trigger] spec_route_belongs(
                routes@,
                records@,
                e,
            ) by {
                if e < routes_before.len() {
                    assert(spec_route_belongs(routes_before, records@, e));
                    let t = choose|t: int|
                        {
                            &&& 0 <= t < records@.len()
                            &&& view_route(routes_before[e].1) == #[trigger] spec_record_route(
                                records@,
                                t,
                            )
                            &&& (routes_before[e].0@ == spec_final_name(records@, t) || (
                            spec_name_count(bases, bases[t]) == 1 && routes_before[e].0@
                                == spec_prefixed(records@[t].source_id@, bases[t])))
                        };
                    assert(routes@[e] == routes_before[e]);
                    assert(view_route(routes@[e].1) == spec_record_route(records@, t));
                } else {
                    assert(view_route(routes@[e].1) == spec_record_route(records@, i as int));
                }
            }
        }
        if is_collision {
            let ghost amb_before = ambiguous@;
            ambiguous.push(base.clone());
            proof {
                crate::text::lemma_strings_push(amb_before, ambiguous@.last());
                assert(ambiguous@.last()@ == bases[i as int]);
                assert(ambiguous@ == amb_before.push(ambiguous@.last()));
                assert forall|t: int|
                    0 <= t < i + 1 && spec_name_count(bases, bases[t]) > 1 implies view_strings(
                    ambiguous@,
                ).contains(#[trigger] bases[t]) by {
                    if t < i {
                        assert(view_strings(amb_before).contains(bases[t]));
                    }
                }
            }
        } else {
            // A unique name also gets a prefixed alias route.
            let mut alias = records[i].source_id.clone();
            alias.append(":");
            alias.append(base.as_str());
            proof {
                reveal_strlit(":");
                assert(alias@ =~= spec_prefixed(records@[i as int].source_id@, bases[i as int]));
            }
            let alias_route = ToolRoute {
                kind: records[i].kind,
                source_id: records[i].source_id.clone(),
                original_name: records[i].original_name.clone(),
            };
            let ghost routes_mid = routes@;
            routes.push((alias, alias_route));
            proof {
                let e1 = routes@.len() - 1;
                assert(view_route(routes@[e1].1) == spec_record_route(records@, i as int));
                assert(spec_name_count(bases, bases[i as int]) == 1);
                assert(forall|q: int| 0 <= q < routes_mid.len() ==> routes@[q] == routes_mid[q]);
                assert(routes@[e1].0@ == spec_prefixed(
                    records@[i as int].source_id@,
                    spec_base_names(records@)[i as int],
                ));
                assert forall|t: int|
                    0 <= t <= i && spec_name_count(bases, bases[t]) == 1 implies #[trigger] spec_alias_routed(
                    routes@,
                    records@,
                    t,
                ) by {
                    if t < i {
                        assert(spec_alias_routed(routes_mid, records@, t));
                        let e = choose|e: int|
                            {
                                &&& 0 <= e < routes_mid.len()
                                &&& (#[trigger] routes_mid[e]).0@ == spec_prefixed(
                                    records@[t].source_id@,
                                    spec_base_names(records@)[t],
                                )
                                &&& view_route(routes_mid[e].1) == spec_record_route(records@, t)
                            };
                        assert(routes@[e] == routes_mid[e]);
                    }
                }
                assert forall|t: int| 0 <= t <= i implies #[trigger] spec_routed(
                    routes@,
                    records@,
                    t,
                ) by {
                    assert(spec_routed(routes_mid, records@, t));
                    let e = choose|e: int|
                        {
                            &&& 0 <= e < routes_mid.len()
                            &&& (#[trigger] routes_mid[e]).0@ == spec_final_name(records@, t)
                            &&& view_route(routes_mid[e].1) == spec_record_route(records@, t)
                        };
                    assert(routes@[e].0@ == spec_final_name(records@, t));
                }
                assert forall|e: int|
                    0 <= e < routes@.len() implies #[trigger] spec_route_belongs(
                    routes@,
                    records@,
                    e,
                ) by {
                    if e < routes_mid.len() {
                        assert(spec_route_belongs(routes_mid, records@, e));
                        let t = choose|t: int|
                            {
                                &&& 0 <= t < records@.len()
                                &&& view_route(routes_mid[e].1) == #[trigger] spec_record_route(
                                    records@,
                                    t,
                                )
                                &&& (routes_mid[e].0@ == spec_final_name(records@, t) || (
                                spec_name_count(bases, bases[t]) == 1 && routes_mid[e].0@
                                    == spec_prefixed(records@[t].source_id@, bases[t])))
                            };
                        assert(routes@[e] == routes_mid[e]);
                        assert(view_route(routes@[e].1) == spec_record_route(records@, t));
                    } else {
                        assert(view_route(routes@[e].1) == spec_record_route(records@, i as int));
                    }
                }
                assert(forall|t: int|
                    0 <= t < i + 1 && spec_name_count(bases, bases[t]) > 1 ==> view_strings(
                        ambiguous@,
                    ).contains(#[trigger] bases[t]));
            }
        }
        i = i + 1;
    }
    proof {
        assert forall|x: Seq<char>|
            #[trigger] view_strings(ambiguous@).contains(x) <==> (spec_name_count(bases, x) > 1
                && bases.contains(x)) by {
            if spec_name_count(bases, x) > 1 && bases.contains(x) {
                let t = choose|t: int| 0 <= t < bases.len() && bases[t] == x;
                assert(view_strings(ambiguous@).contains(bases[t]));
            }
        }
    }
    ToolSurfaceMerge { tools, routes, ambiguous_names: ambiguous }
}

/// A colliding colon-free base name is not routed: every route key is
/// either a prefixed name (which contains `':'` after a nonempty source
/// id) or the base name of a record without collision.
pub proof fn lemma_no_bare_route_for_collision(
    records: Seq<ToolRecord>,
    surface: ToolSurfaceMerge,
    x: Seq<char>,
)
    requires
        // The surface satisfies the route characterization of
        // `merge_tools_surface`.
        forall|e: int|
            0 <= e < surface.routes@.len() ==> #[trigger] spec_route_belongs(
                surface.routes@,
                records,
                e,
            ),
        spec_name_count(spec_base_names(records), x) > 1,
        colon_free(x),
        forall|i: int| 0 <= i < records.len() ==> (#[trigger] records[i]).source_id@.len() > 0,
    ensures
        forall|e: int| 0 <= e < surface.routes@.len() ==> (#[trigger] surface.routes@[e]).0@ != x,
{
    let bases = spec_base_names(records);
    assert forall|e: int| 0 <= e < surface.routes@.len() implies (
    #[trigger] surface.routes@[e]).0@ != x by {
        assert(spec_route_belongs(surface.routes@, records, e));
        let i = choose|i: int|
            {
                &&& 0 <= i < records.len()
                &&& view_route(surface.routes@[e].1) == #[trigger] spec_record_route(records, i)
                &&& (surface.routes@[e].0@ == spec_final_name(records, i) || (spec_name_count(
                    spec_base_names(records),
                    spec_base_names(records)[i],
                ) == 1 && surface.routes@[e].0@ == spec_prefixed(
                    records[i].source_id@,
                    spec_base_names(records)[i],
                )))
            };
        if surface.routes@[e].0@ == spec_final_name(records, i) {
            if spec_name_count(bases, bases[i]) > 1 {
                // A prefixed name holds a colon, so it cannot equal x.
                let p = spec_prefixed(records[i].source_id@, bases[i]);
                if p == x {
                    assert(x[records[i].source_id@.len() as int] == ':');
                }
            } else {
                // A bare final name has count one, but x has count above one.
                if bases[i] == x {
                    assert(spec_name_count(bases, x) == 1);
                }
            }
        } else {
            let p = spec_prefixed(records[i].source_id@, bases[i]);
            if p == x {
                assert(x[records[i].source_id@.len() as int] == ':');
            }
        }
    }
}

/// Look up the route registered for an exposed tool name: the index of
/// the first entry bearing it, and nothing when none does.
pub fn lookup_route(routes: &Vec<(String, ToolRoute)>, name: &str) -> (r: Option<usize>)
    ensures
        match r {
            Some(ix) => ix < routes@.len() && routes@[ix as int].0@ == name@ && (forall|t: int|
                0 <= t < ix ==> (#[trigger] routes@[t]).0@ != name@),
            None => forall|t: int| 0 <= t < routes@.len() ==> (#[trigger] routes@[t]).0@ != name@,
        },
{
    let n = routes.len();
    let mut i: usize = 0;
    while i < n
        invariant
            n == routes@.len(),
            i <= n,
            forall|t: int| 0 <= t < i ==> (#[trigger] routes@[t]).0@ != name@,
        decreases n - i,
    {
        if str_eq(routes[i].0.as_str(), name) {
            return Some(i);
        }
        i = i + 1;
    }
    None
}

/// Whether a profile allowlist enables a tool: an empty allowlist enables
/// everything; otherwise some entry must read `source_id:original_name`
/// with a colon-free source id.
pub fn tool_is_enabled(enabled_tools: &Vec<String>, source_id: &str, original_name: &str) -> (r:
    bool)
    ensures
        enabled_tools@.len() == 0 ==> r == true,
        enabled_tools@.len() > 0 ==> r == (colon_free(source_id@) && view_strings(
            enabled_tools@,
        ).contains(spec_prefixed(source_id@, original_name@))),
{
    if enabled_tools.len() == 0 {
        return true;
    }
    if str_contains_char(source_id, ':') {
        return false;
    }
    let mut needle = source_id.to_owned();
    needle.append(":");
    needle.append(original_name);
    proof {
        reveal_strlit(":");
        assert(needle@ =~= spec_prefixed(source_id@, original_name@));
    }
    crate::text::strings_contain(enabled_tools, needle.as_str())
}

/// Whether the allowlist enables a tool, as `tool_is_enabled` decides it.
pub open spec fn spec_tool_enabled(allow: Seq<Seq<char>>, source_id: Seq<char>, orig: Seq<char>) -> bool {
    allow.len() == 0 || (colon_free(source_id) && allow.contains(spec_prefixed(source_id, orig)))
}

/// The post-transform base names of a list of (original name, tool) pairs.
pub open spec fn spec_pair_names(entries: Seq<(String, ToolDef)>) -> Seq<Seq<char>> {
    entries.map(|i: int, e: (String, ToolDef)| e.1.name@)
}

/// The entries of one source that survive allowlisting and first-wins
/// deduplication of exposed base names: an entry is kept when the
/// allowlist enables it and no earlier kept entry bears its name.
pub open spec fn spec_source_kept(
    entries: Seq<(String, ToolDef)>,
    allow: Seq<Seq<char>>,
    source_id: Seq<char>,
) -> Seq<(String, ToolDef)>
    decreases entries.len(),
{
    if entries.len() == 0 {
        Seq::empty()
    } else {
        let prev = spec_source_kept(entries.drop_last(), allow, source_id);
        let e = entries.last();
        if spec_tool_enabled(allow, source_id, e.0@) && !spec_pair_names(prev).contains(e.1.name@) {
            prev.push(e)
        } else {
            prev
        }
    }
}

/// The base names dropped as same-source duplicates: enabled entries whose
/// name an earlier kept entry already bears. These are reported, never
/// silently discarded, and the earlier entry is never overwritten.
pub open spec fn spec_source_dropped(
    entries: Seq<(String, ToolDef)>,
    allow: Seq<Seq<char>>,
    source_id: Seq<char>,
) -> Seq<Seq<char>>
    decreases entries.len(),
{
    if entries.len() == 0 {
        Seq::empty()
    } else {
        let prevk = spec_source_kept(entries.drop_last(), allow, source_id);
        let prevd = spec_source_dropped(entries.drop_last(), allow, source_id);
        let e = entries.last();
        if spec_tool_enabled(allow, source_id, e.0@) && spec_pair_names(prevk).contains(e.1.name@) {
            prevd.push(e.1.name@)
        } else {
            prevd
        }
    }
}

/// The kept entries of one source bear pairwise distinct base names, so the
/// records handed to `merge_tools_surface` never repeat a name within a
/// source: a duplicate is dropped, never registered twice and never
/// overwriting the first.
pub proof fn lemma_source_names_unique(
    entries: Seq<(String, ToolDef)>,
    allow: Seq<Seq<char>>,
    source_id: Seq<char>,
)
    ensures
        forall|i: int, j: int|
            0 <= i < j < spec_source_kept(entries, allow, source_id).len()
                ==> #[trigger] spec_source_kept(entries, allow, source_id)[i].1.name@
                != #[trigger] spec_source_kept(entries, allow, source_id)[j].1.name@,
    decreases entries.len(),
{
    if entries.len() > 0 {
        lemma_source_names_unique(entries.drop_last(), allow, source_id);
        let prev = spec_source_kept(entries.drop_last(), allow, source_id);
        let k = spec_source_kept(entries, allow, source_id);
        let e = entries.last();
        assert forall|i: int, j: int| 0 <= i < j < k.len() implies #[trigger] k[i].1.name@
            != #[trigger] k[j].1.name@ by {
            if j < prev.len() {
                assert(k[i] == prev[i] && k[j] == prev[j]);
            } else {
                assert(k.len() == prev.len() + 1 && k[j] == e && k[i] == prev[i]);
                assert(!spec_pair_names(prev).contains(e.1.name@));
                assert(spec_pair_names(prev)[i] == prev[i].1.name@);
            }
        }
    }
}

/// Build one source's tool records: apply the profile allowlist, drop
/// same-source duplicate base names first-wins, and report each dropped
/// name so the caller can warn. `entries` pairs each original tool name
/// with its post-transform definition, so a rename into a colliding name
/// is deduplicated (and later prefixed) like any other.
pub fn build_source_records(
    kind: ToolRouteKind,
    source_id: &str,
    entries: Vec<(String, ToolDef)>,
    enabled_tools: &Vec<String>,
) -> (r: (Vec<ToolRecord>, Vec<String>))
    ensures
        ({
            let kept = spec_source_kept(entries@, view_strings(enabled_tools@), source_id@);
            &&& r.0@.len() == kept.len()
            &&& forall|i: int|
                0 <= i < kept.len() ==> {
                    &&& (#[trigger] r.0@[i]).kind == kind
                    &&& r.0@[i].source_id@ == source_id@
                    &&& r.0@[i].original_name == kept[i].0
                    &&& r.0@[i].tool == kept[i].1
                }
            &&& view_strings(r.1@) == spec_source_dropped(
                entries@,
                view_strings(enabled_tools@),
                source_id@,
            )
        }),
{
    let ghost all = entries@;
    let ghost allow = view_strings(enabled_tools@);
    let mut rest = entries;
    let total: usize = rest.len();
    proof {
        assert(all.len() == total as int);
    }
    let mut kept: Vec<ToolRecord> = Vec::new();
    let mut names: Vec<String> = Vec::new();
    let mut dropped: Vec<String> = Vec::new();
    let mut j: usize = 0;
    while rest.len() > 0
        invariant
            allow == view_strings(enabled_tools@),
            all.len() <= usize::MAX,
            j + rest@.len() == all.len(),
            rest@ =~= all.skip(j as int),
            kept@.len() == spec_source_kept(all.take(j as int), allow, source_id@).len(),
            forall|i: int|
                0 <= i < kept@.len() ==> {
                    &&& (#[trigger] kept@[i]).kind == kind
                    &&& kept@[i].source_id@ == source_id@
                    &&& kept@[i].original_name == spec_source_kept(
                        all.take(j as int),
                        allow,
                        source_id@,
                    )[i].0
                    &&& kept@[i].tool == spec_source_kept(all.take(j as int), allow, source_id@)[i].1
                },
            view_strings(names@) =~= spec_pair_names(
                spec_source_kept(all.take(j as int), allow, source_id@),
            ),
            view_strings(dropped@) =~= spec_source_dropped(all.take(j as int), allow, source_id@),
        decreases rest@.len(),
    {
        let e = rest.remove(0);
        proof {
            assert(e == all[j as int]);
            assert(all.take(j + 1).drop_last() =~= all.take(j as int));
            assert(all.take(j + 1).last() == all[j as int]);
        }
        let ghost prevk = spec_source_kept(all.take(j as int), allow, source_id@);
        let enabled = tool_is_enabled(enabled_tools, source_id, e.0.as_str());
        if enabled {
            if crate::text::strings_contain(&names, e.1.name.as_str()) {
                proof {
                    assert(spec_tool_enabled(allow, source_id@, e.0@));
                    assert(view_strings(names@) == spec_pair_names(prevk));
                    assert(spec_pair_names(prevk).contains(e.1.name@));
                    assert(spec_source_dropped(all.take(j + 1), allow, source_id@)
                        == spec_source_dropped(all.take(j as int), allow, source_id@).push(
                        e.1.name@,
                    ));
                    assert(view_strings(dropped@.push(e.1.name)) =~= view_strings(dropped@).push(
                        e.1.name@,
                    ));
                }
                dropped.push(e.1.name);
            } else {
                let nm = e.1.name.as_str().to_owned();
                proof {
                    assert(spec_tool_enabled(allow, source_id@, e.0@));
                    assert(!spec_pair_names(prevk).contains(e.1.name@));
                    assert(spec_source_kept(all.take(j + 1), allow, source_id@) == prevk.push(e));
                    assert forall|i: int|
                        0 <= i < names@.push(nm).len() implies view_strings(names@.push(nm))[i]
                        == spec_pair_names(prevk.push(e))[i] by {
                        if i < names@.len() {
                            assert(view_strings(names@)[i] == spec_pair_names(prevk)[i]);
                        }
                    }
                    assert(view_strings(names@.push(nm)) =~= spec_pair_names(prevk.push(e)));
                }
                names.push(nm);
                let rec = ToolRecord {
                    kind,
                    source_id: source_id.to_owned(),
                    original_name: e.0,
                    tool: e.1,
                };
                proof {
                    assert(spec_source_kept(all.take(j + 1), allow, source_id@) =~= prevk.push(
                        (rec.original_name, rec.tool),
                    ));
                }
                kept.push(rec);
            }
        }
        j = j + 1;
        proof {
            assert(rest@ =~= all.skip(j as int));
        }
    }
    proof {
        assert(all.take(j as int) =~= all);
        assert(view_strings(dropped@) =~= spec_source_dropped(all, allow, source_id@));
    }
    (kept, dropped)
}

/// The URIs of a resource list.
pub open spec fn spec_resource_uris(rs: Seq<(String, ResourceDef)>) -> Seq<Seq<char>> {
    rs.map(|i: int, p: (String, ResourceDef)| p.1.uri@)
}

/// Merge resources from many sources: a URI reported by more than one
/// entry is replaced by its stable collision URN; unique URIs pass
/// through.
pub fn merge_resources_with_collisions(per_source: Vec<(String, ResourceDef)>) -> (r: Vec<
    ResourceDef,
>)
    ensures
        r@.len() == per_source@.len(),
        forall|i: int|
            0 <= i < per_source@.len() ==> view_resource(#[trigger] r@[i]) == ({
                let orig = view_resource(per_source@[i].1);
                let uris = spec_resource_uris(per_source@);
                if spec_name_count(uris, orig.uri) > 1 {
                    crate::model::SpecResourceDef {
                        uri: spec_resource_urn(per_source@[i].0@, orig.uri),
                        ..orig
                    }
                } else {
                    orig
                }
            }),
{
    let ghost uris = spec_resource_uris(per_source@);
    let n = per_source.len();
    let mut out: Vec<ResourceDef> = Vec::new();
    let mut i: usize = 0;
    while i < n
        invariant
            n == per_source@.len(),
            uris == spec_resource_uris(per_source@),
            uris.len() == n,
            forall|t: int| 0 <= t < n ==> uris[t] == (#[trigger] per_source@[t]).1.uri@,
            i <= n,
            out@.len() == i,
            forall|t: int|
                0 <= t < i ==> view_resource(#[trigger] out@[t]) == ({
                    let orig = view_resource(per_source@[t].1);
                    if spec_name_count(uris, orig.uri) > 1 {
                        crate::model::SpecResourceDef {
                            uri: spec_resource_urn(per_source@[t].0@, orig.uri),
                            ..orig
                        }
                    } else {
                        orig
                    }
                }),
        decreases n - i,
    {
        let cnt = count_resource_uri(&per_source, per_source[i].1.uri.as_str());
        let src = &per_source[i];
        let exposed_uri: String = if cnt > 1 {
            crate::ids::resource_collision_urn(src.0.as_str(), src.1.uri.as_str())
        } else {
            src.1.uri.clone()
        };
        let rd = ResourceDef {
            uri: exposed_uri,
            name: src.1.name.clone(),
            description: match &src.1.description {
                Some(d) => Some(d.clone()),
                None => None,
            },
            mime_type: match &src.1.mime_type {
                Some(m) => Some(m.clone()),
                None => None,
            },
            size: src.1.size,
        };
        out.push(rd);
        i = i + 1;
    }
    out
}

/// Count the entries reporting a resource URI.
fn count_resource_uri(per_source: &Vec<(String, ResourceDef)>, uri: &str) -> (r: usize)
    ensures
        r == spec_name_count(spec_resource_uris(per_source@), uri@),
{
    let ghost uris = spec_resource_uris(per_source@);
    let n = per_source.len();
    let mut count: usize = 0;
    let mut i: usize = 0;
    while i < n
        invariant
            n == per_source@.len(),
            uris == spec_resource_uris(per_source@),
            uris.len() == n,
            forall|t: int| 0 <= t < n ==> uris[t] == (#[trigger] per_source@[t]).1.uri@,
            i <= n,
            count == spec_name_count(uris.take(i as int), uri@),
            count <= i,
        decreases n - i,
    {
        proof {
            assert(uris.take(i + 1).drop_last() =~= uris.take(i as int));
            assert(uris.take(i + 1).last() == uris[i as int]);
        }
        if str_eq(per_source[i].1.uri.as_str(), uri) {
            count = count + 1;
        }
        i = i + 1;
    }
    proof {
        assert(uris.take(n as int) =~= uris);
    }
    count
}

/// The names of a prompt list.
pub open spec fn spec_prompt_names(ps: Seq<(String, crate::model::PromptDef)>) -> Seq<Seq<char>> {
    ps.map(|i: int, p: (String, crate::model::PromptDef)| p.1.name@)
}

/// Merge prompts from many sources: a name reported by more than one
/// entry is exposed as `source:name`; unique names pass through.
pub fn merge_prompts_with_collisions(per_source: Vec<(String, crate::model::PromptDef)>) -> (r:
    Vec<crate::model::PromptDef>)
    ensures
        r@.len() == per_source@.len(),
        forall|i: int|
            0 <= i < per_source@.len() ==> (#[trigger] r@[i]).name@ == ({
                let names = spec_prompt_names(per_source@);
                if spec_name_count(names, names[i]) > 1 {
                    spec_prefixed(per_source@[i].0@, names[i])
                } else {
                    names[i]
                }
            }),
        forall|i: int|
            0 <= i < per_source@.len() ==> crate::model::view_prompt(#[trigger] r@[i]).description
                == crate::model::view_prompt(per_source@[i].1).description
                && crate::model::view_prompt(r@[i]).arguments == crate::model::view_prompt(
                per_source@[i].1,
            ).arguments,
{
    let ghost names = spec_prompt_names(per_source@);
    let n = per_source.len();
    let mut out: Vec<crate::model::PromptDef> = Vec::new();
    let mut i: usize = 0;
    while i < n
        invariant
            n == per_source@.len(),
            names == spec_prompt_names(per_source@),
            names.len() == n,
            forall|t: int| 0 <= t < n ==> names[t] == (#[trigger] per_source@[t]).1.name@,
            i <= n,
            out@.len() == i,
            forall|t: int|
                0 <= t < i ==> (#[trigger] out@[t]).name@ == (if spec_name_count(names, names[t])
                    > 1 {
                    spec_prefixed(per_source@[t].0@, names[t])
                } else {
                    names[t]
                }),
            forall|t: int|
                0 <= t < i ==> crate::model::view_prompt(#[trigger] out@[t]).description
                    == crate::model::view_prompt(per_source@[t].1).description
                    && crate::model::view_prompt(out@[t]).arguments == crate::model::view_prompt(
                    per_source@[t].1,
                ).arguments,
        decreases n - i,
    {
        let cnt = count_prompt_name(&per_source, per_source[i].1.name.as_str());
        let src = &per_source[i];
        let exposed_name: String = if cnt > 1 {
            let mut p = src.0.clone();
            p.append(":");
            p.append(src.1.name.as_str());
            proof {
                reveal_strlit(":");
                assert(p@ =~= spec_prefixed(per_source@[i as int].0@, names[i as int]));
            }
            p
        } else {
            src.1.name.clone()
        };
        let pd = crate::model::PromptDef {
            name: exposed_name,
            description: match &src.1.description {
                Some(d) => Some(d.clone()),
                None => None,
            },
            arguments: match &src.1.arguments {
                Some(args) => Some(copy_prompt_arguments(args)),
                None => None,
            },
        };
        out.push(pd);
        i = i + 1;
    }
    out
}

fn copy_prompt_arguments(args: &Vec<crate::model::PromptArgument>) -> (r: Vec<
    crate::model::PromptArgument,
>)
    ensures
        r@.map(|i: int, a: crate::model::PromptArgument| crate::model::view_prompt_argument(a))
            =~= args@.map(
            |i: int, a: crate::model::PromptArgument| crate::model::view_prompt_argument(a),
        ),
{
    let n = args.len();
    let mut out: Vec<crate::model::PromptArgument> = Vec::new();
    let mut i: usize = 0;
    while i < n
        invariant
            n == args@.len(),
            i <= n,
            out@.len() == i,
            forall|t: int|
                0 <= t < i ==> crate::model::view_prompt_argument(#[trigger] out@[t])
                    == crate::model::view_prompt_argument(args@[t]),
        decreases n - i,
    {
        out.push(crate::model::PromptArgument {
            name: args[i].name.clone(),
            description: match &args[i].description {
                Some(d) => Some(d.clone()),
                None => None,
            },
            required: args[i].required,
        });
        i = i + 1;
    }
    proof {
        let lhs = out@.map(
            |i: int, a: crate::model::PromptArgument| crate::model::view_prompt_argument(a),
        );
        let rhs = args@.map(
            |i: int, a: crate::model::PromptArgument| crate::model::view_prompt_argument(a),
        );
        assert forall|t: int| 0 <= t < n implies #[trigger] lhs[t] == rhs[t] by {
            assert(crate::model::view_prompt_argument(out@[t]) == crate::model::view_prompt_argument(
                args@[t],
            ));
        }
    }
    out
}

fn count_prompt_name(per_source: &Vec<(String, crate::model::PromptDef)>, name: &str) -> (r: usize)
    ensures
        r == spec_name_count(spec_prompt_names(per_source@), name@),
{
    let ghost names = spec_prompt_names(per_source@);
    let n = per_source.len();
    let mut count: usize = 0;
    let mut i: usize = 0;
    while i < n
        invariant
            n == per_source@.len(),
            names == spec_prompt_names(per_source@),
            names.len() == n,
            forall|t: int| 0 <= t < n ==> names[t] == (#[trigger] per_source@[t]).1.name@,
            i <= n,
            count == spec_name_count(names.take(i as int), name@),
            count <= i,
        decreases n - i,
    {
        proof {
            assert(names.take(i + 1).drop_last() =~= names.take(i as int));
            assert(names.take(i + 1).last() == names[i as int]);
        }
        if str_eq(per_source[i].1.name.as_str(), name) {
            count = count + 1;
        }
        i = i + 1;
    }
    proof {
        assert(names.take(n as int) =~= names);
    }
    count
}

} // verus!
