//! Per-team-size game rules (`proxy_sv_teamSizeRules`).
//!
//! The proxy can override the server's `timelimit`, `fraglimit` and
//! `capturelimit` for the roster size currently fielded: an `N vs N` round
//! uses the rule defined for `N`; without one, the nearest smaller defined
//! size wins (5 vs 5 → 4 vs 4 → 3 vs 3 → …). When `N` is below every defined
//! size, no rule applies and the server's original limits are restored.
//! The limits are only rewritten when the effective rule changes.
//!
//! Syntax: rules separated by spaces/commas/semicolons, fields by `:`:
//! `size:timelimit:fraglimit:capturelimit`, e.g. `2:20:30:5,3:15:40:0`. Any
//! limit may be empty (or `-`) to leave that cvar as it is.

use vstd::prelude::*;

use vstd::string::StringSliceAdditionalSpecFns;

use crate::text::{
    is_sep, lemma_split_join, parse_i32, spec_parse_i32, spec_split, spec_trim, split_bounds,
    trim_bounds, Sep,
};

verus! {

/// One parsed `proxy_sv_teamSizeRules` entry.
#[derive(Debug, Clone, Copy, PartialEq, Eq, Structural)]
pub struct Rule {
    /// Team size (`N` in `N vs N`).
    pub size: i32,
    pub time_limit: Option<i32>,
    pub frag_limit: Option<i32>,
    pub capture_limit: Option<i32>,
}

/// The server's `timelimit`/`fraglimit`/`capturelimit` captured before the
/// proxy first overrode them, so they can be restored once no rule applies.
#[derive(Debug, Clone, Copy, PartialEq, Eq, Structural)]
pub struct BaseLimits {
    pub time_limit: i32,
    pub frag_limit: i32,
    pub capture_limit: i32,
}

/// What the per-frame reconciler should do.
#[derive(Debug, Clone, Copy, PartialEq, Eq, Structural)]
pub enum Action {
    /// Nothing changed; no trap calls.
    NoChange,
    /// Write the limits of this rule.
    Apply(Rule),
    /// Restore the captured server limits.
    Restore,
}

/// The three server cvars a rule may override.
#[derive(Debug, Clone, Copy, PartialEq, Eq, Structural)]
pub enum LimitCvar {
    TimeLimit,
    FragLimit,
    CaptureLimit,
}

/// The rule engine's per-round memory: the rule it last wrote and the server
/// limits it captured before its first override.
#[derive(Debug, Clone, Copy, PartialEq, Eq, Structural)]
pub struct RulesState {
    pub last_team_rule: Option<Rule>,
    pub base_limits: Option<BaseLimits>,
}

/// One `:`-separated limit field: absent, empty or `-` leaves the cvar as
/// it is; a malformed number is treated the same way.
pub open spec fn spec_limit(fields: Seq<Seq<u8>>, k: int) -> Option<i32> {
    if k >= fields.len() {
        None
    } else {
        let t = spec_trim(fields[k]);
        if t.len() == 0 || t == seq![45u8] {
            None
        } else {
            spec_parse_i32(t)
        }
    }
}

/// The rule a non-empty token defines: its size must parse and be positive.
pub open spec fn spec_rule_of_token(tok: Seq<u8>) -> Option<Rule> {
    let fields = spec_split(tok, Sep::Colon);
    let size = spec_parse_i32(spec_trim(fields[0]));
    if size is Some && size->0 > 0 {
        Some(
            Rule {
                size: size->0,
                time_limit: spec_limit(fields, 1),
                frag_limit: spec_limit(fields, 2),
                capture_limit: spec_limit(fields, 3),
            },
        )
    } else {
        None
    }
}

/// The rules of a sequence of tokens, in order, malformed ones skipped.
pub open spec fn spec_rules_of(pieces: Seq<Seq<u8>>) -> Seq<Rule>
    decreases pieces.len(),
{
    if pieces.len() == 0 {
        Seq::empty()
    } else {
        let prev = spec_rules_of(pieces.drop_last());
        let tok = pieces.last();
        if tok.len() > 0 && spec_rule_of_token(tok) is Some {
            prev.push(spec_rule_of_token(tok)->0)
        } else {
            prev
        }
    }
}

/// The rules a `proxy_sv_teamSizeRules` value (UTF-8 bytes) defines.
pub open spec fn spec_parse(text: Seq<u8>) -> Seq<Rule> {
    spec_rules_of(spec_split(text, Sep::Rules))
}

fn limit_field(b: &[u8], fields: &Vec<(usize, usize)>, k: usize, lo: usize, hi: usize) -> (r: Option<
    i32,
>)
    requires
        lo <= hi <= b@.len(),
        fields@.len() == spec_split(b@.subrange(lo as int, hi as int), Sep::Colon).len(),
        forall|j: int|
            0 <= j < fields@.len() ==> lo <= (#[trigger] fields@[j]).0 <= fields@[j].1 <= hi
                && b@.subrange(fields@[j].0 as int, fields@[j].1 as int) == spec_split(
                b@.subrange(lo as int, hi as int),
                Sep::Colon,
            )[j],
    ensures
        r == spec_limit(spec_split(b@.subrange(lo as int, hi as int), Sep::Colon), k as int),
{
    if k >= fields.len() {
        return None;
    }
    let (f0, f1) = fields[k];
    let (a, z) = trim_bounds(b, f0, f1);
    if a == z {
        return None;
    }
    if z - a == 1 && b[a] == 45 {
        assert(b@.subrange(a as int, z as int) =~= seq![45u8]);
        return None;
    }
    assert(b@.subrange(a as int, z as int) != seq![45u8]) by {
        if b@.subrange(a as int, z as int) == seq![45u8] {
            assert(b@.subrange(a as int, z as int)[0] == b@[a as int]);
        }
    }
    parse_i32(b, a, z)
}

/// The rule token `b[lo..hi]` defines, if any.
fn rule_of_token(b: &[u8], lo: usize, hi: usize) -> (r: Option<Rule>)
    requires
        lo <= hi <= b@.len(),
    ensures
        r == spec_rule_of_token(b@.subrange(lo as int, hi as int)),
{
    let fields = split_bounds(b, lo, hi, Sep::Colon);
    proof {
        crate::text::lemma_split_nonempty(b@.subrange(lo as int, hi as int), Sep::Colon);
    }
    let (f0, f1) = fields[0];
    let (a, z) = trim_bounds(b, f0, f1);
    let size = parse_i32(b, a, z);
    match size {
        Some(n) => {
            if n > 0 {
                Some(
                    Rule {
                        size: n,
                        time_limit: limit_field(b, &fields, 1, lo, hi),
                        frag_limit: limit_field(b, &fields, 2, lo, hi),
                        capture_limit: limit_field(b, &fields, 3, lo, hi),
                    },
                )
            } else {
                None
            }
        },
        None => None,
    }
}

/// Parse the cvar value into rules. Tokens are separated by `,`, `;` or
/// ASCII white space; a token whose size is missing, malformed or not
/// positive is ignored; a malformed limit field is treated as unset.
pub fn parse(value: &str) -> (r: Vec<Rule>)
    ensures
        r@ == spec_parse(value.spec_bytes()),
{
    let b = value.as_bytes();
    let pieces = split_bounds(b, 0, b.len(), Sep::Rules);
    let ghost all = spec_split(b@.subrange(0, b@.len() as int), Sep::Rules);
    assert(b@.subrange(0, b@.len() as int) =~= b@);
    let mut rules: Vec<Rule> = Vec::new();
    let mut k: usize = 0;
    assert(all.take(0) =~= Seq::<Seq<u8>>::empty());
    while k < pieces.len()
        invariant
            k <= pieces@.len(),
            pieces@.len() == all.len(),
            all == spec_split(b@, Sep::Rules),
            forall|j: int|
                0 <= j < pieces@.len() ==> (#[trigger] pieces@[j]).0 <= pieces@[j].1 <= b@.len()
                    && b@.subrange(pieces@[j].0 as int, pieces@[j].1 as int) == all[j],
            rules@ == spec_rules_of(all.take(k as int)),
        decreases pieces@.len() - k,
    {
        let (lo, hi) = pieces[k];
        assert(all.take(k + 1).drop_last() =~= all.take(k as int));
        assert(all.take(k + 1).last() == all[k as int]);
        if lo < hi {
            let r = rule_of_token(b, lo, hi);
            if let Some(rule) = r {
                rules.push(rule);
            }
        } else {
            assert(all[k as int].len() == 0);
        }
        k += 1;
    }
    assert(all.take(k as int) =~= all);
    rules
}

/// `select` over the first `i` rules: the largest size not above `n`, the
/// last one listed among equals (`Iterator::max_by_key`).
pub open spec fn spec_select_prefix(rules: Seq<Rule>, n: i32, i: int) -> Option<Rule>
    decreases i,
{
    if i <= 0 {
        None
    } else {
        let best = spec_select_prefix(rules, n, i - 1);
        let r = rules[i - 1];
        if r.size <= n && (best is None || r.size >= best->0.size) {
            Some(r)
        } else {
            best
        }
    }
}

pub open spec fn spec_select(rules: Seq<Rule>, n: i32) -> Option<Rule> {
    spec_select_prefix(rules, n, rules.len() as int)
}

proof fn lemma_select_prefix(rules: Seq<Rule>, n: i32, i: int)
    requires
        0 <= i <= rules.len(),
    ensures
        match spec_select_prefix(rules, n, i) {
            None => forall|j: int| 0 <= j < i ==> rules[j].size > n,
            Some(x) => exists|k: int|
                0 <= k < i && rules[k] == x && x.size <= n && (forall|j: int|
                    0 <= j < i && rules[j].size <= n ==> rules[j].size <= x.size) && (forall|j: int|
                    k < j < i && rules[j].size <= n ==> rules[j].size < x.size),
        },
    decreases i,
{
    if i > 0 {
        lemma_select_prefix(rules, n, i - 1);
        let best = spec_select_prefix(rules, n, i - 1);
        let r = rules[i - 1];
        if r.size <= n && (best is None || r.size >= best->0.size) {
            assert(rules[i - 1] == r);
        } else if best is Some {
            let x = best->0;
            let k = choose|k: int|
                0 <= k < i - 1 && rules[k] == x && x.size <= n && (forall|j: int|
                    0 <= j < i - 1 && rules[j].size <= n ==> rules[j].size <= x.size) && (forall|
                    j: int,
                |
                    k < j < i - 1 && rules[j].size <= n ==> rules[j].size < x.size);
            assert(0 <= k < i && rules[k] == x);
        }
    }
}

/// The rule to apply for a round of `team_size` players per team: the
/// defined size nearest to (and not above) `team_size`; among rules of that
/// size the last one listed. `None` when the roster is below every defined
/// size.
pub fn select(rules: &[Rule], team_size: i32) -> (r: Option<Rule>)
    ensures
        r == spec_select(rules@, team_size),
        match r {
            None => forall|j: int| 0 <= j < rules@.len() ==> rules@[j].size > team_size,
            Some(x) => exists|k: int|
                0 <= k < rules@.len() && rules@[k] == x && x.size <= team_size && (forall|j: int|
                    0 <= j < rules@.len() && rules@[j].size <= team_size ==> rules@[j].size
                        <= x.size) && (forall|j: int|
                    k < j < rules@.len() && rules@[j].size <= team_size ==> rules@[j].size
                        < x.size),
        },
{
    let mut best: Option<Rule> = None;
    let mut i: usize = 0;
    while i < rules.len()
        invariant
            i <= rules@.len(),
            best == spec_select_prefix(rules@, team_size, i as int),
        decreases rules@.len() - i,
    {
        let r = rules[i];
        let take = match best {
            None => r.size <= team_size,
            Some(b) => r.size <= team_size && r.size >= b.size,
        };
        if take {
            best = Some(r);
        }
        i += 1;
    }
    proof {
        lemma_select_prefix(rules@, team_size, rules@.len() as int);
    }
    best
}

/// What the reconciler does with a `red` vs `blue` roster given the rule it
/// last applied.
pub open spec fn spec_decide(last: Option<Rule>, rules: Seq<Rule>, red: i32, blue: i32) -> Action {
    if red < 1 || red != blue {
        Action::NoChange
    } else {
        match spec_select(rules, red) {
            Some(rule) => if last == Some(rule) {
                Action::NoChange
            } else {
                Action::Apply(rule)
            },
            None => if last is Some {
                Action::Restore
            } else {
                Action::NoChange
            },
        }
    }
}

/// Decide what to do with a `red` vs `blue` roster.
///
/// Only even, populated rosters (`red == blue >= 1`) are considered; uneven
/// and empty rosters keep the previous state. A change of the effective rule
/// applies it; an even roster below every defined rule restores the captured
/// server limits, once, if a rule had been applied.
pub fn decide(last: Option<Rule>, rules: &[Rule], red: i32, blue: i32) -> (r: Action)
    ensures
        r == spec_decide(last, rules@, red, blue),
{
    if red < 1 || red != blue {
        return Action::NoChange;
    }
    match select(rules, red) {
        Some(rule) => {
            if last == Some(rule) {
                Action::NoChange
            } else {
                Action::Apply(rule)
            }
        },
        None => {
            if last.is_some() {
                Action::Restore
            } else {
                Action::NoChange
            }
        },
    }
}

/// The cvar writes a rule asks for: only the limits it defines, in the
/// order timelimit, fraglimit, capturelimit.
pub open spec fn spec_rule_writes(rule: Rule) -> Seq<(LimitCvar, i32)> {
    (if rule.time_limit is Some {
        seq![(LimitCvar::TimeLimit, rule.time_limit->0)]
    } else {
        Seq::empty()
    }) + (if rule.frag_limit is Some {
        seq![(LimitCvar::FragLimit, rule.frag_limit->0)]
    } else {
        Seq::empty()
    }) + (if rule.capture_limit is Some {
        seq![(LimitCvar::CaptureLimit, rule.capture_limit->0)]
    } else {
        Seq::empty()
    })
}

/// The cvar writes that put captured server limits back.
pub open spec fn spec_base_writes(base: BaseLimits) -> Seq<(LimitCvar, i32)> {
    seq![
        (LimitCvar::TimeLimit, base.time_limit),
        (LimitCvar::FragLimit, base.frag_limit),
        (LimitCvar::CaptureLimit, base.capture_limit),
    ]
}

/// The cvar writes of a rule (`trap_Cvar_Set` for each defined limit).
pub fn rule_writes(rule: &Rule) -> (r: Vec<(LimitCvar, i32)>)
    ensures
        r@ == spec_rule_writes(*rule),
{
    let mut out: Vec<(LimitCvar, i32)> = Vec::new();
    if let Some(v) = rule.time_limit {
        out.push((LimitCvar::TimeLimit, v));
    }
    if let Some(v) = rule.frag_limit {
        out.push((LimitCvar::FragLimit, v));
    }
    if let Some(v) = rule.capture_limit {
        out.push((LimitCvar::CaptureLimit, v));
    }
    assert(out@ =~= spec_rule_writes(*rule));
    out
}

/// Record the server's current limits as the ones to restore, unless they
/// were captured already this round (the capture happens once, right before
/// the first rule is applied).
pub fn capture_base_limits(state: &mut RulesState, current: BaseLimits)
    ensures
        final(state).last_team_rule == old(state).last_team_rule,
        final(state).base_limits == (if old(state).base_limits is Some {
            old(state).base_limits
        } else {
            Some(current)
        }),
{
    if state.base_limits.is_none() {
        state.base_limits = Some(current);
    }
}

/// The cvar writes that restore the captured limits (none when nothing was
/// captured).
pub fn restore_base_limits(state: &RulesState) -> (r: Vec<(LimitCvar, i32)>)
    ensures
        r@ == (match state.base_limits {
            Some(base) => spec_base_writes(base),
            None => Seq::empty(),
        }),
{
    let mut out: Vec<(LimitCvar, i32)> = Vec::new();
    if let Some(base) = state.base_limits {
        out.push((LimitCvar::TimeLimit, base.time_limit));
        out.push((LimitCvar::FragLimit, base.frag_limit));
        out.push((LimitCvar::CaptureLimit, base.capture_limit));
    }
    assert(out@ =~= (match state.base_limits {
        Some(base) => spec_base_writes(base),
        None => Seq::empty(),
    }));
    out
}

/// Carry out a reconciler decision: the cvar writes to issue, and the rule
/// now in effect (`Apply` records the rule, `Restore` forgets it).
pub fn commit(state: &mut RulesState, action: Action) -> (r: Vec<(LimitCvar, i32)>)
    ensures
        final(state).base_limits == old(state).base_limits,
        match action {
            Action::NoChange => r@ == Seq::<(LimitCvar, i32)>::empty() && final(state).last_team_rule
                == old(state).last_team_rule,
            Action::Apply(rule) => r@ == spec_rule_writes(rule) && final(state).last_team_rule
                == Some(rule),
            Action::Restore => r@ == (match old(state).base_limits {
                Some(base) => spec_base_writes(base),
                None => Seq::empty(),
            }) && final(state).last_team_rule is None,
        },
{
    match action {
        Action::NoChange => Vec::new(),
        Action::Apply(rule) => {
            state.last_team_rule = Some(rule);
            rule_writes(&rule)
        },
        Action::Restore => {
            let writes = restore_base_limits(state);
            state.last_team_rule = None;
            writes
        },
    }
}

/// Undo the override on module shutdown (map change / `map_restart`) so a
/// rule value does not leak into the next map: the writes that restore the
/// captured limits, and a fresh state. Nothing happens when no rule is in
/// effect.
pub fn restore_on_shutdown(state: &mut RulesState) -> (r: Vec<(LimitCvar, i32)>)
    ensures
        old(state).last_team_rule is None ==> r@ == Seq::<(LimitCvar, i32)>::empty()
            && final(state).last_team_rule == old(state).last_team_rule
            && final(state).base_limits == old(state).base_limits,
        old(state).last_team_rule is Some ==> r@ == (match old(state).base_limits {
            Some(base) => spec_base_writes(base),
            None => Seq::empty(),
        }) && final(state).last_team_rule is None && final(state).base_limits is None,
{
    if state.last_team_rule.is_none() {
        return Vec::new();
    }
    let writes = restore_base_limits(state);
    state.last_team_rule = None;
    state.base_limits = None;
    writes
}

/// Law: once the reconciler's decision has been carried out, the same roster
/// on the next frame asks for nothing — a stable roster issues no cvar
/// writes.
pub proof fn law_decision_is_stable(last: Option<Rule>, rules: Seq<Rule>, red: i32, blue: i32)
    ensures
        ({
            let next = match spec_decide(last, rules, red, blue) {
                Action::Apply(rule) => Some(rule),
                Action::Restore => None,
                Action::NoChange => last,
            };
            spec_decide(next, rules, red, blue) == Action::NoChange
        }),
{
}

/// Law: uneven rosters and rosters without players on both teams never
/// change the limits.
pub proof fn law_uneven_rosters_keep_limits(
    last: Option<Rule>,
    rules: Seq<Rule>,
    red: i32,
    blue: i32,
)
    requires
        red != blue || red < 1,
    ensures
        spec_decide(last, rules, red, blue) == Action::NoChange,
{
}

/// Law: an applied rule is never for a larger team than the roster, and no
/// defined size lies strictly between the two (the fallback is strictly
/// downward to the nearest defined size).
pub proof fn law_applied_rule_is_nearest_not_above(
    last: Option<Rule>,
    rules: Seq<Rule>,
    n: i32,
    rule: Rule,
)
    requires
        spec_decide(last, rules, n, n) == Action::Apply(rule),
    ensures
        rules.contains(rule),
        rule.size <= n,
        forall|j: int| 0 <= j < rules.len() && rules[j].size <= n ==> rules[j].size <= rule.size,
{
    lemma_select_prefix(rules, n, rules.len() as int);
}

/// Law: every parsed rule is for a positive team size.
pub proof fn law_parsed_sizes_are_positive(text: Seq<u8>)
    ensures
        forall|j: int| 0 <= j < spec_parse(text).len() ==> spec_parse(text)[j].size > 0,
{
    lemma_rules_of_positive(spec_split(text, Sep::Rules));
}

proof fn lemma_rules_of_concat(p: Seq<Seq<u8>>, q: Seq<Seq<u8>>)
    ensures
        spec_rules_of(p + q) == spec_rules_of(p) + spec_rules_of(q),
    decreases q.len(),
{
    if q.len() == 0 {
        assert(p + q =~= p);
        assert(spec_rules_of(p) + Seq::<Rule>::empty() =~= spec_rules_of(p));
    } else {
        let q0 = q.drop_last();
        lemma_rules_of_concat(p, q0);
        assert((p + q).drop_last() =~= p + q0);
        assert((p + q).last() == q.last());
        let tok = q.last();
        if tok.len() > 0 && spec_rule_of_token(tok) is Some {
            assert((spec_rules_of(p) + spec_rules_of(q0)).push(spec_rule_of_token(tok)->0)
                =~= spec_rules_of(p) + spec_rules_of(q0).push(spec_rule_of_token(tok)->0));
        }
    }
}

/// Law: tokens are parsed independently — two rule texts joined by a
/// separator (`,`, `;` or ASCII white space) give the rules of the first
/// followed by those of the second, and every rule is for a team size of
/// at least one.
pub proof fn law_parse_joined_texts(a: Seq<u8>, sep: u8, b: Seq<u8>)
    requires
        is_sep(Sep::Rules, sep),
    ensures
        spec_parse(a + seq![sep] + b) == spec_parse(a) + spec_parse(b),
        forall|j: int|
            0 <= j < spec_parse(a + seq![sep] + b).len() ==> spec_parse(a + seq![sep] + b)[j].size
                >= 1,
{
    lemma_split_join(a, sep, b, Sep::Rules);
    lemma_rules_of_concat(spec_split(a, Sep::Rules), spec_split(b, Sep::Rules));
    law_parsed_sizes_are_positive(a + seq![sep] + b);
}

proof fn lemma_rules_of_positive(pieces: Seq<Seq<u8>>)
    ensures
        forall|j: int| 0 <= j < spec_rules_of(pieces).len() ==> spec_rules_of(pieces)[j].size > 0,
    decreases pieces.len(),
{
    if pieces.len() > 0 {
        lemma_rules_of_positive(pieces.drop_last());
    }
}

} // verus!
