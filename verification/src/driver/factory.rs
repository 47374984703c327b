//! Which of the registered strategy factories a run uses.
use vstd::prelude::*;
use vstd::string::*;
use crate::params::knobs::views;
use crate::params::registry::{clash_text, register_knobs, registered, KnobRegistry};
use crate::params::value::Knob;
use crate::text::{join, joined, str_eq, texts_of};

verus! {

/// The name that is asked for: the command line's, else the strategy file's.
pub open spec fn wanted(explicit: Option<&str>, config: Option<&str>) -> Option<Seq<char>> {
    match explicit {
        Some(n) => Some(n@),
        None => match config {
            Some(n) => Some(n@),
            None => None,
        },
    }
}

/// The first factory of a name, at or after `from`.
pub open spec fn factory_at(names: Seq<Seq<char>>, name: Seq<char>, from: int) -> int
    decreases names.len() - from,
{
    if from >= names.len() || names[from] == name {
        from
    } else {
        factory_at(names, name, from + 1)
    }
}

/// The factory a run uses, or what it is refused with.
pub open spec fn selected(
    explicit: Option<&str>,
    config: Option<&str>,
    names: Seq<Seq<char>>,
) -> Result<int, Seq<char>> {
    if names.len() == 0 {
        Err("no strategy factories registered with the driver"@)
    } else {
        match wanted(explicit, config) {
            None => if names.len() == 1 {
                Ok(0)
            } else {
                Err(
                    "several strategy factories are registered ("@ + joined(names, ", "@)
                        + "); pick one with --factory or a top-level `factory = \"...\"` in the strategy file"@,
                )
            },
            Some(n) => if factory_at(names, n, 0) < names.len() {
                Ok(factory_at(names, n, 0))
            } else {
                Err(
                    "unknown strategy factory \""@ + n + "\" (registered: "@ + joined(names, ", "@)
                        + ")"@,
                )
            },
        }
    }
}

/// The place of the factory a run uses: the one the command line names, else
/// the one the strategy file names, else the only one there is.
pub fn select_factory(explicit: Option<&str>, config: Option<&str>, names: &Vec<String>) -> (r:
    Result<usize, String>)
    ensures
        match selected(explicit, config, texts_of(names@)) {
            Ok(i) => r matches Ok(k) && k == i && k < names@.len(),
            Err(e) => r matches Err(s) && s@ == e,
        },
{
    let ghost all = texts_of(names@);
    if names.len() == 0 {
        return Err("no strategy factories registered with the driver".to_owned());
    }
    let name = match explicit {
        Some(n) => n,
        None => match config {
            Some(n) => n,
            None => {
                if names.len() == 1 {
                    return Ok(0);
                }
                let mut s = "several strategy factories are registered (".to_owned();
                s.append(join(names, ", ").as_str());
                s.append(
                    "); pick one with --factory or a top-level `factory = \"...\"` in the strategy file",
                );
                return Err(s);
            },
        },
    };
    let mut i: usize = 0;
    while i < names.len()
        invariant
            i <= names@.len(),
            all == texts_of(names@),
            wanted(explicit, config) == Some(name@),
            factory_at(all, name@, i as int) == factory_at(all, name@, 0),
        decreases names@.len() - i,
    {
        if str_eq(names[i].as_str(), name) {
            return Ok(i);
        }
        i = i + 1;
    }
    let mut s = "unknown strategy factory \"".to_owned();
    s.append(name);
    s.append("\" (registered: ");
    s.append(join(names, ", ").as_str());
    s.append(")");
    Err(s)
}

/// Register a factory's knobs; a refusal names the factory.
pub fn register_factory(reg: &mut KnobRegistry, name: &str, knobs: &Vec<Knob>) -> (r: Result<
    (),
    String,
>)
    requires
        old(reg).wf(),
    ensures
        final(reg).wf(),
        ({
            let (extra, failed) = registered(
                views(old(reg).extra@),
                views(knobs@),
                knobs@.len(),
            );
            &&& views(final(reg).extra@) == extra
            &&& match failed {
                None => r is Ok,
                Some(f) => r matches Err(e) && e@ == "factory \""@ + name@ + "\": "@ + clash_text(
                    views(knobs@)[f.0].name,
                    f.1,
                ),
            }
        }),
{
    match register_knobs(reg, knobs) {
        Ok(()) => Ok(()),
        Err(e) => {
            let mut s = "factory \"".to_owned();
            s.append(name);
            s.append("\": ");
            s.append(e.as_str());
            Err(s)
        },
    }
}

/// A run never uses a factory other than the one it is asked for.
pub proof fn law_the_named_factory_is_used(
    explicit: Option<&str>,
    config: Option<&str>,
    names: Seq<Seq<char>>,
)
    requires
        wanted(explicit, config) is Some,
    ensures
        selected(explicit, config, names) matches Ok(i) ==> 0 <= i < names.len() && Some(names[i])
            == wanted(explicit, config),
        selected(explicit, config, names) is Ok <==> names.contains(wanted(explicit, config)->0),
{
    let n = wanted(explicit, config)->0;
    lemma_factory_at(names, n, 0);
    if names.contains(n) {
        let k = choose|k: int| 0 <= k < names.len() && names[k] == n;
        assert(factory_at(names, n, 0) <= k);
    }
}

proof fn lemma_factory_at(names: Seq<Seq<char>>, n: Seq<char>, from: int)
    requires
        0 <= from <= names.len(),
    ensures
        from <= factory_at(names, n, from) <= names.len(),
        factory_at(names, n, from) < names.len() ==> names[factory_at(names, n, from)] == n,
        forall|k: int| from <= k < names.len() && #[trigger] names[k] == n ==> factory_at(
            names,
            n,
            from,
        ) <= k,
    decreases names.len() - from,
{
    if from < names.len() && names[from] != n {
        lemma_factory_at(names, n, from + 1);
    }
}

} // verus!
