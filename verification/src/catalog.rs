//! Shaping the enumerated catalog before it is ranked.
//!
//! A catalog source hands over, per flake, a list of templates; the
//! configuration may narrow that list to chosen template names and
//! give the flake a human-readable name. From each kept template the
//! picker derives the two projections the core works on: the stable
//! identity the recency store is keyed by, and the display text the
//! query is matched against.

use vstd::prelude::*;

verus! {

use crate::rank::Item;

/// One template of a flake, as plain values: the template's own name,
/// the flake it comes from, the flake's optional configured name, and
/// the template's description.
pub struct FlakeTemplate {
    pub template_name: String,
    pub flake_uri: String,
    pub flake_name: Option<String>,
    pub description: String,
}

/// Whether a template name is in the configured allow-list.
pub open spec fn name_allowed(allowed: Seq<String>, n: Seq<char>) -> bool {
    exists|i: int| 0 <= i < allowed.len() && allowed[i]@ == n
}

/// The templates whose names the allow-list keeps, in order.
pub open spec fn spec_keep_named(list: Seq<FlakeTemplate>, allowed: Seq<String>) -> Seq<
    FlakeTemplate,
>
    decreases list.len(),
{
    if list.len() == 0 {
        Seq::empty()
    } else if name_allowed(allowed, list[0].template_name@) {
        seq![list[0]].add(spec_keep_named(list.drop_first(), allowed))
    } else {
        spec_keep_named(list.drop_first(), allowed)
    }
}

fn contains_name(allowed: &Vec<String>, n: &String) -> (r: bool)
    ensures
        r == name_allowed(allowed@, n@),
{
    let m = allowed.len();
    let mut i: usize = 0;
    while i < m
        invariant
            i <= m,
            m == allowed@.len(),
            forall|k: int| 0 <= k < i ==> allowed@[k]@ != n@,
        decreases m - i,
    {
        if allowed[i] == *n {
            return true;
        }
        i = i + 1;
    }
    false
}

/// Narrow a flake's templates to the names the configuration chose,
/// keeping their order. A name list that matches nothing leaves an
/// empty catalog contribution, not an error.
pub fn keep_named(list: Vec<FlakeTemplate>, allowed: &Vec<String>) -> (r: Vec<FlakeTemplate>)
    ensures
        r@ == spec_keep_named(list@, allowed@),
{
    let ghost orig = list@;
    let mut rest = list;
    let mut out: Vec<FlakeTemplate> = Vec::new();
    proof {
        assert(out@.add(spec_keep_named(rest@, allowed@)) =~= spec_keep_named(orig, allowed@));
    }
    while rest.len() > 0
        invariant
            spec_keep_named(orig, allowed@) == out@.add(spec_keep_named(rest@, allowed@)),
        decreases rest@.len(),
    {
        let ghost before_rest = rest@;
        let ghost before_out = out@;
        let t = rest.remove(0);
        proof {
            assert(rest@ =~= before_rest.drop_first());
            assert(t == before_rest[0]);
        }
        if contains_name(allowed, &t.template_name) {
            out.push(t);
            proof {
                assert(before_out.add(spec_keep_named(before_rest, allowed@)) =~= out@.add(
                    spec_keep_named(rest@, allowed@),
                ));
            }
        }
    }
    proof {
        assert(spec_keep_named(rest@, allowed@) =~= Seq::<FlakeTemplate>::empty());
        assert(out@.add(Seq::<FlakeTemplate>::empty()) =~= out@);
    }
    out
}

/// Give every template of a flake the configured flake name; nothing
/// else changes.
pub fn apply_flake_name(list: Vec<FlakeTemplate>, name: &String) -> (r: Vec<FlakeTemplate>)
    ensures
        r@.len() == list@.len(),
        forall|i: int|
            0 <= i < list@.len() ==> {
                &&& (#[trigger] r@[i]).template_name@ == list@[i].template_name@
                &&& r@[i].flake_uri@ == list@[i].flake_uri@
                &&& r@[i].description@ == list@[i].description@
                &&& r@[i].flake_name matches Some(f) && f@ == name@
            },
{
    let ghost orig = list@;
    let mut rest = list;
    let mut out: Vec<FlakeTemplate> = Vec::new();
    while rest.len() > 0
        invariant
            out@.len() + rest@.len() == orig.len(),
            rest@ == orig.skip(out@.len() as int),
            forall|i: int|
                0 <= i < out@.len() ==> {
                    &&& (#[trigger] out@[i]).template_name@ == orig[i].template_name@
                    &&& out@[i].flake_uri@ == orig[i].flake_uri@
                    &&& out@[i].description@ == orig[i].description@
                    &&& out@[i].flake_name matches Some(f) && f@ == name@
                },
        decreases rest@.len(),
    {
        let ghost before_rest = rest@;
        let t = rest.remove(0);
        proof {
            assert(rest@ =~= before_rest.drop_first());
            assert(t == orig[out@.len() as int]);
            assert(before_rest.drop_first() =~= orig.skip(out@.len() as int + 1));
        }
        out.push(
            FlakeTemplate {
                template_name: t.template_name,
                flake_uri: t.flake_uri,
                flake_name: Some(name.clone()),
                description: t.description,
            },
        );
    }
    out
}

/// Stamp one enumerated template with the name it was listed under
/// and the flake it was enumerated from; its description and its
/// configured flake name are kept.
pub fn adopt(t: FlakeTemplate, listed_name: &String, flake_uri: &String) -> (r: FlakeTemplate)
    ensures
        r.template_name@ == listed_name@,
        r.flake_uri@ == flake_uri@,
        r.flake_name == t.flake_name,
        r.description == t.description,
{
    FlakeTemplate {
        template_name: listed_name.clone(),
        flake_uri: flake_uri.clone(),
        flake_name: t.flake_name,
        description: t.description,
    }
}

/// The two projections the core ranks on: the identity the recency
/// store is keyed by (`<uri>-<template>`), and the display text the
/// query is matched against (`[<flake name> ]<uri>#<template>`).
pub fn item_of(t: &FlakeTemplate) -> (r: Item)
    ensures
        r.identity@ == t.flake_uri@ + "-"@ + t.template_name@,
        r.display@ == (match t.flake_name {
            Some(f) => f@ + " "@ + t.flake_uri@ + "#"@ + t.template_name@,
            None => t.flake_uri@ + "#"@ + t.template_name@,
        }),
{
    let mut identity = String::new();
    identity.append(t.flake_uri.as_str());
    identity.append("-");
    identity.append(t.template_name.as_str());
    let mut display = String::new();
    match &t.flake_name {
        Some(f) => {
            display.append(f.as_str());
            display.append(" ");
        },
        None => {},
    }
    display.append(t.flake_uri.as_str());
    display.append("#");
    display.append(t.template_name.as_str());
    proof {
        assert(identity@ =~= t.flake_uri@ + "-"@ + t.template_name@);
        match &t.flake_name {
            Some(f) => {
                assert(display@ =~= f@ + " "@ + t.flake_uri@ + "#"@ + t.template_name@);
            },
            None => {
                assert(display@ =~= t.flake_uri@ + "#"@ + t.template_name@);
            },
        }
    }
    Item { identity, display }
}

} // verus!
