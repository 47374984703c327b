//! Which knobs exist.
use vstd::prelude::*;
use vstd::string::*;
use crate::params::distance::{distance, edit_distance};
use crate::params::knobs::{builtin, builtin_knobs, views};
use crate::params::value::{Knob, KnobView};
use crate::text::str_eq;

verus! {

/// The engine's own knobs, then those that strategies declared.
#[derive(Debug, Clone)]
pub struct KnobRegistry {
    pub own: Vec<Knob>,
    pub extra: Vec<Knob>,
}

/// The place of the first knob of a name, at or after `from`.
pub open spec fn knob_at(knobs: Seq<KnobView>, name: Seq<char>, from: int) -> int
    decreases knobs.len() - from,
{
    if from >= knobs.len() || knobs[from].name == name {
        from
    } else {
        knob_at(knobs, name, from + 1)
    }
}

/// The knob of a name, where there is one.
pub open spec fn knob_named(knobs: Seq<KnobView>, name: Seq<char>) -> Option<KnobView> {
    let i = knob_at(knobs, name, 0);
    if i < knobs.len() {
        Some(knobs[i])
    } else {
        None
    }
}

proof fn lemma_knob_at(knobs: Seq<KnobView>, name: Seq<char>, from: int)
    requires
        0 <= from <= knobs.len(),
    ensures
        from <= knob_at(knobs, name, from) <= knobs.len(),
        knob_at(knobs, name, from) < knobs.len() ==> knobs[knob_at(knobs, name, from)].name == name,
        forall|i: int| from <= i < knob_at(knobs, name, from) ==> (#[trigger] knobs[i]).name != name,
    decreases knobs.len() - from,
{
    if from < knobs.len() && knobs[from].name != name {
        lemma_knob_at(knobs, name, from + 1);
    }
}

fn find_knob(knobs: &Vec<Knob>, name: &str) -> (r: usize)
    ensures
        r <= knobs@.len(),
        r == knob_at(views(knobs@), name@, 0),
{
    let mut i: usize = 0;
    while i < knobs.len() && !str_eq(knobs[i].name.as_str(), name)
        invariant
            i <= knobs@.len(),
            knob_at(views(knobs@), name@, i as int) == knob_at(views(knobs@), name@, 0),
        decreases knobs@.len() - i,
    {
        i = i + 1;
    }
    i
}

/// Why a knob could not be registered.
#[derive(Debug, Clone, Copy, PartialEq, Eq, Structural)]
pub enum Clash {
    /// The engine has a knob of that name.
    Builtin,
    /// The name stands for another definition.
    Redefined,
}

/// Whether a knob may be registered, and what stands in the way.
pub open spec fn clash_of(extra: Seq<KnobView>, k: KnobView) -> Option<Clash> {
    if knob_named(builtin(), k.name) is Some {
        Some(Clash::Builtin)
    } else {
        match knob_named(extra, k.name) {
            Some(e) => if e == k {
                None
            } else {
                Some(Clash::Redefined)
            },
            None => None,
        }
    }
}

/// The declared knobs once a knob is registered: one that is there already is
/// not added again.
pub open spec fn with_knob(extra: Seq<KnobView>, k: KnobView) -> Seq<KnobView> {
    if knob_named(extra, k.name) is Some {
        extra
    } else {
        extra.push(k)
    }
}

/// The first `n` knobs are registered, up to the first that clashes: what is
/// declared then, and the place and reason of the clash.
pub open spec fn registered(extra: Seq<KnobView>, knobs: Seq<KnobView>, n: nat) -> (
    Seq<KnobView>,
    Option<(int, Clash)>,
)
    decreases n,
{
    if n == 0 {
        (extra, None)
    } else {
        let (e, failed) = registered(extra, knobs, (n - 1) as nat);
        match failed {
            Some(f) => (e, Some(f)),
            None => match clash_of(e, knobs[n - 1]) {
                Some(why) => (e, Some((n - 1, why))),
                None => (with_knob(e, knobs[n - 1]), None),
            },
        }
    }
}

/// The message of a clash.
pub open spec fn clash_text(name: Seq<char>, why: Clash) -> Seq<char> {
    "strategy knob \""@ + name + match why {
        Clash::Builtin => "\" collides with a built-in engine knob"@,
        Clash::Redefined => "\" registered twice with different definitions"@,
    }
}

fn clash_message(name: &str, why: Clash) -> (r: String)
    ensures
        r@ == clash_text(name@, why),
{
    let mut s = "strategy knob \"".to_owned();
    s.append(name);
    match why {
        Clash::Builtin => s.append("\" collides with a built-in engine knob"),
        Clash::Redefined => s.append("\" registered twice with different definitions"),
    }
    s
}

/// A suggestion's distance: those farther away are not made.
pub const HINT_DISTANCE: usize = 3;

/// The place of the nearest name among the first `n` knobs, the first of
/// equally near ones; -1 when none is near enough.
pub open spec fn nearest_knob(knobs: Seq<KnobView>, key: Seq<char>, n: nat) -> int
    decreases n,
{
    if n == 0 {
        -1
    } else {
        let best = nearest_knob(knobs, key, (n - 1) as nat);
        let d = distance(key, knobs[n - 1].name);
        if d <= HINT_DISTANCE && (best < 0 || d < distance(key, knobs[best].name)) {
            n - 1
        } else {
            best
        }
    }
}

/// The hint on a mistyped key.
pub open spec fn hint_text(knobs: Seq<KnobView>, key: Seq<char>) -> Seq<char> {
    let i = nearest_knob(knobs, key, knobs.len());
    if i >= 0 {
        " (did you mean \""@ + knobs[i].name + "\"?)"@
    } else {
        Seq::empty()
    }
}

/// A hint names a knob that is near, and no knob is nearer.
pub proof fn law_hint_is_the_nearest(knobs: Seq<KnobView>, key: Seq<char>, n: nat)
    requires
        n <= knobs.len(),
    ensures
        ({
            let b = nearest_knob(knobs, key, n);
            &&& -1 <= b < n
            &&& b >= 0 ==> distance(key, knobs[b].name) <= HINT_DISTANCE
            &&& forall|i: int|
                0 <= i < n ==> distance(key, (#[trigger] knobs[i]).name) <= HINT_DISTANCE ==> b >= 0
                    && distance(key, knobs[b].name) <= distance(key, knobs[i].name)
        }),
    decreases n,
{
    if n > 0 {
        law_hint_is_the_nearest(knobs, key, (n - 1) as nat);
    }
}

impl KnobRegistry {
    /// The engine's knobs are the engine's.
    pub open spec fn wf(&self) -> bool {
        views(self.own@) == builtin()
    }

    /// All knobs, the engine's first.
    pub open spec fn all(&self) -> Seq<KnobView> {
        views(self.own@) + views(self.extra@)
    }

    /// The knob of a name, the engine's first.
    pub open spec fn named(&self, name: Seq<char>) -> Option<KnobView> {
        match knob_named(views(self.own@), name) {
            Some(k) => Some(k),
            None => knob_named(views(self.extra@), name),
        }
    }

    /// The engine's knobs alone.
    pub fn new() -> (r: Self)
        ensures
            r.wf(),
            views(r.extra@) == Seq::<KnobView>::empty(),
    {
        let r = KnobRegistry { own: builtin_knobs(), extra: Vec::new() };
        proof {
            assert(views(r.extra@) =~= Seq::<KnobView>::empty());
        }
        r
    }
}

/// Register knobs that a strategy declares. A name that the engine has, or
/// that stands for another definition, is refused, and the knobs after it are
/// not registered.
pub fn register_knobs(reg: &mut KnobRegistry, knobs: &Vec<Knob>) -> (r: Result<(), String>)
    requires
        old(reg).wf(),
    ensures
        final(reg).wf(),
        ({
            let (extra, failed) = registered(
                views(old(reg).extra@),
                views(knobs@),
                knobs@.len(),
            );
            &&& views(final(reg).extra@) == extra
            &&& match failed {
                None => r is Ok,
                Some(f) => r matches Err(e) && e@ == clash_text(views(knobs@)[f.0].name, f.1),
            }
        }),
{
    let ghost e0 = views(reg.extra@);
    let ghost ks = views(knobs@);
    let mut i: usize = 0;
    while i < knobs.len()
        invariant
            reg.wf(),
            i <= knobs@.len(),
            e0 == views(old(reg).extra@),
            ks == views(knobs@),
            registered(e0, ks, i as nat) == (views(reg.extra@), None::<(int, Clash)>),
        decreases knobs@.len() - i,
    {
        let k = &knobs[i];
        let name = k.name.as_str();
        proof {
            lemma_knob_at(views(reg.own@), ks[i as int].name, 0);
            lemma_knob_at(views(reg.extra@), ks[i as int].name, 0);
        }
        let ghost before = views(reg.extra@);
        if find_knob(&reg.own, name) < reg.own.len() {
            proof {
                lemma_registered_stops(e0, ks, (i + 1) as nat, knobs@.len());
            }
            return Err(clash_message(name, Clash::Builtin));
        }
        let at: usize = find_knob(&reg.extra, name);
        if at < reg.extra.len() {
            let e = &reg.extra[at];
            if !(e.kind == k.kind && e.default.same(&k.default) && e.doc == k.doc) {
                proof {
                    assert(views(reg.extra@)[at as int] == e@);
                    lemma_registered_stops(e0, ks, (i + 1) as nat, knobs@.len());
                }
                return Err(clash_message(name, Clash::Redefined));
            }
        } else {
            reg.extra.push(k.dup());
            proof {
                assert(views(reg.extra@) =~= before.push(ks[i as int]));
            }
        }
        i = i + 1;
    }
    Ok(())
}

proof fn lemma_registered_stops(extra: Seq<KnobView>, knobs: Seq<KnobView>, n: nat, m: nat)
    requires
        n <= m,
        registered(extra, knobs, n).1 is Some,
    ensures
        registered(extra, knobs, m) == registered(extra, knobs, n),
    decreases m,
{
    if n < m {
        lemma_registered_stops(extra, knobs, n, (m - 1) as nat);
    }
}

/// Forget every knob that a strategy declared.
pub fn clear_registered_knobs(reg: &mut KnobRegistry)
    requires
        old(reg).wf(),
    ensures
        final(reg).wf(),
        views(final(reg).extra@) == Seq::<KnobView>::empty(),
{
    reg.extra.clear();
    proof {
        assert(views(reg.extra@) =~= Seq::<KnobView>::empty());
    }
}

/// Every knob, the engine's first.
pub fn all_knobs(reg: &KnobRegistry) -> (r: Vec<Knob>)
    ensures
        views(r@) == reg.all(),
{
    let mut out: Vec<Knob> = Vec::new();
    let mut i: usize = 0;
    while i < reg.own.len()
        invariant
            i <= reg.own@.len(),
            out@.len() == i,
            forall|k: int| 0 <= k < i ==> (#[trigger] out@[k])@ == reg.own@[k]@,
        decreases reg.own@.len() - i,
    {
        out.push(reg.own[i].dup());
        i = i + 1;
    }
    let ghost n = reg.own@.len();
    let mut j: usize = 0;
    while j < reg.extra.len()
        invariant
            n == reg.own@.len(),
            j <= reg.extra@.len(),
            out@.len() == n + j,
            forall|k: int| 0 <= k < n ==> (#[trigger] out@[k])@ == reg.own@[k]@,
            forall|k: int| n <= k < n + j ==> (#[trigger] out@[k])@ == reg.extra@[k - n]@,
        decreases reg.extra@.len() - j,
    {
        out.push(reg.extra[j].dup());
        j = j + 1;
    }
    proof {
        assert(views(out@) =~= reg.all());
    }
    out
}

/// The knob of a name, the engine's first.
pub fn spec_of(reg: &KnobRegistry, name: &str) -> (r: Option<Knob>)
    ensures
        reg.named(name@) is Some <==> r is Some,
        r matches Some(k) ==> reg.named(name@) == Some(k@),
{
    let i: usize = find_knob(&reg.own, name);
    proof {
        lemma_knob_at(views(reg.own@), name@, 0);
        lemma_knob_at(views(reg.extra@), name@, 0);
    }
    if i < reg.own.len() {
        let k = reg.own[i].dup();
        assert(views(reg.own@)[i as int] == k@);
        return Some(k);
    }
    let j: usize = find_knob(&reg.extra, name);
    if j < reg.extra.len() {
        let k = reg.extra[j].dup();
        assert(views(reg.extra@)[j as int] == k@);
        return Some(k);
    }
    None
}

/// The names are short enough to be compared with a key.
pub open spec fn hintable(knobs: Seq<KnobView>, key: Seq<char>) -> bool {
    forall|i: int| 0 <= i < knobs.len() ==> key.len() + (#[trigger] knobs[i]).name.len() < usize::MAX
}

/// A hint on a mistyped key: the nearest name, where one is near enough.
pub fn nearest_hint(reg: &KnobRegistry, key: &str) -> (r: String)
    requires
        hintable(reg.all(), key@),
    ensures
        r@ == hint_text(reg.all(), key@),
{
    let knobs = all_knobs(reg);
    let ghost ks = reg.all();
    let mut best: Option<(usize, usize)> = None;
    let mut i: usize = 0;
    while i < knobs.len()
        invariant
            i <= knobs@.len(),
            views(knobs@) == ks,
            hintable(ks, key@),
            nearest_knob(ks, key@, i as nat) == match best {
                Some(b) => b.0 as int,
                None => -1int,
            },
            best matches Some(b) ==> b.0 < i && b.1 == distance(key@, ks[b.0 as int].name),
        decreases knobs@.len() - i,
    {
        assert(ks[i as int] == knobs@[i as int]@);
        let d: usize = edit_distance(key, knobs[i].name.as_str());
        if d <= HINT_DISTANCE {
            let nearer = match best {
                Some(b) => d < b.1,
                None => true,
            };
            if nearer {
                best = Some((i, d));
            }
        }
        i = i + 1;
    }
    match best {
        Some(b) => {
            assert(ks[b.0 as int] == knobs@[b.0 as int]@);
            let mut s = " (did you mean \"".to_owned();
            s.append(knobs[b.0].name.as_str());
            s.append("\"?)");
            s
        },
        None => {
            let s = String::new();
            s
        },
    }
}

/// A strategy cannot take a name of the engine's: the engine's knob keeps its
/// meaning whatever was registered.
pub proof fn law_builtin_knobs_cannot_be_shadowed(reg: KnobRegistry, name: Seq<char>)
    requires
        reg.wf(),
        knob_named(builtin(), name) is Some,
    ensures
        reg.named(name) == knob_named(builtin(), name),
        forall|k: KnobView| k.name == name ==> #[trigger] clash_of(views(reg.extra@), k) == Some(
            Clash::Builtin,
        ),
{
}

/// Registering the same knobs again changes nothing.
pub proof fn law_registering_again_is_a_no_op(
    extra: Seq<KnobView>,
    knobs: Seq<KnobView>,
    n: nat,
)
    requires
        n <= knobs.len(),
        forall|i: int|
            0 <= i < n ==> knob_named(extra, (#[trigger] knobs[i]).name) == Some(knobs[i])
                && knob_named(builtin(), knobs[i].name) is None,
    ensures
        registered(extra, knobs, n) == (extra, None::<(int, Clash)>),
    decreases n,
{
    if n > 0 {
        law_registering_again_is_a_no_op(extra, knobs, (n - 1) as nat);
    }
}

/// A hint names a knob three edits away at most, and the first of those equally
/// near.
pub proof fn law_hints_are_three_edits_away(knobs: Seq<KnobView>, key: Seq<char>, n: nat)
    requires
        n <= knobs.len(),
    ensures
        ({
            let b = nearest_knob(knobs, key, n);
            &&& b >= 0 ==> distance(key, knobs[b].name) <= 3
            &&& forall|i: int|
                0 <= i < n && distance(key, (#[trigger] knobs[i]).name) <= 3 ==> b >= 0 && (i < b
                    ==> distance(key, knobs[b].name) < distance(key, knobs[i].name))
        }),
    decreases n,
{
    if n > 0 {
        law_hint_is_the_nearest(knobs, key, (n - 1) as nat);
        law_hints_are_three_edits_away(knobs, key, (n - 1) as nat);
    }
}

/// A knob of a new name is added behind the others, one that is registered
/// already as it stands changes nothing, and one that stands otherwise or has
/// an engine knob's name is refused; the first refusal ends a registration.
pub proof fn law_a_knob_is_registered_once(extra: Seq<KnobView>, knobs: Seq<KnobView>, n: nat)
    requires
        0 < n <= knobs.len(),
    ensures
        ({
            let (was, failed) = registered(extra, knobs, (n - 1) as nat);
            let (now, fails) = registered(extra, knobs, n);
            let k = knobs[n - 1];
            let engine = exists|i: int|
                0 <= i < builtin().len() && (#[trigger] builtin()[i]).name == k.name;
            let same = knob_named(was, k.name) == Some(k);
            let taken = knob_named(was, k.name) is Some;
            &&& failed is Some ==> now == was && fails == failed
            &&& failed is None && engine ==> now == was && fails == Some((n - 1, Clash::Builtin))
            &&& failed is None && !engine && taken && !same ==> now == was && fails == Some(
                (n - 1, Clash::Redefined),
            )
            &&& failed is None && !engine && same ==> now == was && fails is None
            &&& failed is None && !engine && !taken ==> now == was.push(k) && fails is None
        }),
{
    lemma_knob_at(builtin(), knobs[n - 1].name, 0);
}

/// A knob is found under its name at its first place, and not where no knob has
/// the name.
pub proof fn law_the_first_knob_of_a_name_is_found(knobs: Seq<KnobView>, name: Seq<char>, k: int)
    requires
        0 <= k <= knobs.len(),
        forall|j: int| 0 <= j < k ==> (#[trigger] knobs[j]).name != name,
        k < knobs.len() ==> knobs[k].name == name,
    ensures
        k < knobs.len() ==> knob_named(knobs, name) == Some(knobs[k]),
        k == knobs.len() ==> knob_named(knobs, name) is None,
{
    lemma_knob_at(knobs, name, 0);
    let i = knob_at(knobs, name, 0);
    if i < k {
        assert(knobs[i].name != name);
    }
}

} // verus!
