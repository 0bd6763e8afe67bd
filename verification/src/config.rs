//! Resolution of the final command tree.
//!
//! The ordered configuration layers — most specific first — fold into one
//! tree: each merge takes the accumulator as the overrider and the next
//! layer as the overridden side. The folded tree then has its version
//! resolved and its subcommands augmented with the default flags.

use vstd::prelude::*;

use crate::augment::{
    add_default_options, augmented_config_ok, config_augmentable, is_auto_complete_scmd,
    override_version, version_resolvable, version_resolved_ok,
};
use crate::errors::ConfigError;
use crate::merge::{combinable, combine_scmd_yaml, combined_layers_ok, subcommands_key};
use crate::yaml::{lookup, Yaml};

verus! {

/// How the accumulator `acc` folds with the layers `rest`, in order,
/// into `out`: each step merges the accumulator, as the overrider, with
/// the next layer (see [`combined_layers_ok`]).
pub open spec fn fold_rel(acc: Yaml, rest: Seq<Yaml>, out: Yaml) -> bool
    decreases rest.len(),
{
    if rest.len() == 0 {
        out == acc
    } else {
        exists|mid: Yaml|
            #[trigger] combined_layers_ok(acc, rest[0], mid) && fold_rel(
                mid,
                rest.drop_first(),
                out,
            )
    }
}

/// A fold extends by one step at its end.
proof fn lemma_fold_rel_snoc(acc: Yaml, rest: Seq<Yaml>, out: Yaml, next: Yaml, out2: Yaml)
    requires
        fold_rel(acc, rest, out),
        combined_layers_ok(out, next, out2),
    ensures
        fold_rel(acc, rest.push(next), out2),
    decreases rest.len(),
{
    if rest.len() == 0 {
        assert(rest.push(next)[0] == next);
        assert(rest.push(next).drop_first() =~= rest);
        assert(combined_layers_ok(acc, next, out2));
        assert(fold_rel(out2, rest, out2));
    } else {
        let mid = choose|mid: Yaml|
            #[trigger] combined_layers_ok(acc, rest[0], mid) && fold_rel(
                mid,
                rest.drop_first(),
                out,
            );
        lemma_fold_rel_snoc(mid, rest.drop_first(), out, next, out2);
        assert(rest.push(next).drop_first() =~= rest.drop_first().push(next));
        assert(rest.push(next)[0] == rest[0]);
        assert(combined_layers_ok(acc, rest.push(next)[0], mid));
    }
}

/// Folds the configuration layers into one augmented command tree: the
/// layers merge pairwise with override-wins semantics (see
/// [`combine_scmd_yaml`]), the `version` string is resolved against the
/// tool identity (see [`override_version`]), and the default flags and
/// the `auto_complete` subcommand are injected (see
/// [`add_default_options`]). With no layers at all the configuration is
/// missing, which is fatal; otherwise the result is owed unless one of
/// the three stages refuses its input, as the error clauses name.
pub fn get_yaml_config(app_name: &str, tool_name: &str, tool_version: &str, layers: Vec<Yaml>) -> (r:
    Result<Yaml, ConfigError>)
    ensures
        layers@.len() == 0 ==> r == Err::<Yaml, ConfigError>(ConfigError::NoConfigFound),
        r matches Ok(y) ==> (exists|folded: Yaml|
            #[trigger] fold_rel(layers@[0], layers@.drop_first(), folded) && (exists|
                versioned: Yaml,
            |
                #[trigger] version_resolved_ok(
                    app_name@,
                    tool_name@,
                    tool_version@,
                    folded,
                    versioned,
                ) && augmented_config_ok(versioned, y))),
        r matches Ok(y) ==> {
            &&& y matches Yaml::Hash(es)
            &&& lookup(es@, "version"@) is Str
            &&& lookup(es@, subcommands_key()) matches Yaml::Array(sc) && sc@.len() > 0
                && is_auto_complete_scmd(sc@[sc@.len() - 1])
        },
        r is Err ==> {
            ||| layers@.len() == 0
            ||| (exists|acc: Yaml, i: int|
                1 <= i < layers@.len() && #[trigger] fold_rel(
                    layers@[0],
                    layers@.subrange(1, i),
                    acc,
                ) && !combinable(acc, layers@[i]))
            ||| (exists|folded: Yaml|
                #[trigger] fold_rel(layers@[0], layers@.drop_first(), folded)
                    && !version_resolvable(folded))
            ||| (exists|folded: Yaml|
                #[trigger] fold_rel(layers@[0], layers@.drop_first(), folded) && (exists|
                    versioned: Yaml,
                |
                    #[trigger] version_resolved_ok(
                        app_name@,
                        tool_name@,
                        tool_version@,
                        folded,
                        versioned,
                    ) && !config_augmentable(versioned)))
        },
{
    let ghost l = layers@;
    let mut rest = layers;
    if rest.len() == 0 {
        return Err(ConfigError::NoConfigFound);
    }
    let mut combined = rest.remove(0);
    proof {
        assert(combined == l[0]);
        assert(rest@ =~= l.skip(1));
        assert(l.subrange(1, 1) =~= Seq::<Yaml>::empty());
    }
    let ghost mut t: int = 1;
    while rest.len() > 0
        invariant
            1 <= t <= l.len(),
            l == layers@,
            rest@ == l.skip(t),
            fold_rel(l[0], l.subrange(1, t), combined),
        decreases rest.len(),
    {
        proof {
            assert(rest@.len() == l.len() - t);
            assert(1 <= t < l.len());
        }
        let next = rest.remove(0);
        proof {
            assert(next == l[t]);
            assert(rest@ =~= l.skip(t + 1));
        }
        let ghost prev = combined;
        combined = match combine_scmd_yaml(combined, next) {
            Ok(c) => {
                proof {
                    lemma_fold_rel_snoc(l[0], l.subrange(1, t), prev, l[t], c);
                    assert(l.subrange(1, t).push(l[t]) =~= l.subrange(1, t + 1));
                }
                c
            },
            Err(e) => {
                proof {
                    assert(fold_rel(l[0], l.subrange(1, t), prev) && !combinable(prev, l[t]));
                }
                return Err(e);
            },
        };
        proof {
            t = t + 1;
        }
    }
    proof {
        assert(t == l.len());
        assert(l.subrange(1, l.len() as int) =~= l.drop_first());
        assert(fold_rel(l[0], l.drop_first(), combined));
    }
    let versioned = match override_version(app_name, tool_name, tool_version, combined) {
        Ok(v) => v,
        Err(e) => {
            return Err(e);
        },
    };
    match add_default_options(versioned) {
        Ok(c) => {
            proof {
                reveal_strlit("version");
                reveal_strlit("subcommands");
                assert("version"@.len() == 7 && "subcommands"@.len() == 11);
            }
            Ok(c)
        },
        Err(e) => Err(e),
    }
}

} // verus!
