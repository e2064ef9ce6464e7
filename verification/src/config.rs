//! Parsing of the alias-to-application configuration text.

use crate::text::lines_of;
use crate::text::spec_lines;
use crate::text::spec_split;
use crate::text::split_str;
use vstd::prelude::*;

verus! {

broadcast use vstd::seq_lib::group_filter_ensures;

/// One alias-to-application mapping from the configuration text.
pub struct Env {
    /// Name of the application whose logs are captured.
    pub heroku_app_name: String,
    /// Short name the user gives on the command line.
    pub alias: String,
}

/// The predicate keeping the non-empty configuration lines.
pub open spec fn nonempty_pred() -> spec_fn(Seq<char>) -> bool {
    |l: Seq<char>| l.len() > 0
}

/// The non-empty lines of the configuration text, each of which names
/// one mapping.
pub open spec fn spec_config_lines(s: Seq<char>) -> Seq<Seq<char>> {
    spec_lines(s).filter(nonempty_pred())
}

/// A configuration line is well-formed when an ": " separator splits it
/// into an alias and an application name.
pub open spec fn spec_entry_ok(l: Seq<char>) -> bool {
    spec_split(l, ": "@).len() >= 2
}

/// Every non-empty line of the configuration text is well-formed.
pub open spec fn spec_config_ok(s: Seq<char>) -> bool {
    forall|i: int|
        0 <= i < spec_config_lines(s).len() ==> spec_entry_ok(#[trigger] spec_config_lines(s)[i])
}

/// Parse the configuration text: one mapping per non-empty line,
/// written `alias: application`.  Returns `None` exactly when some
/// non-empty line lacks the ": " separator; otherwise the mappings, in
/// line order, with the text before the first separator as the alias
/// and the piece after it as the application name.
pub fn parse_config(contents: &str) -> (r: Option<Vec<Env>>)
    ensures
        r is Some <==> spec_config_ok(contents@),
        r matches Some(envs) ==> {
            let cl = spec_config_lines(contents@);
            &&& envs@.len() == cl.len()
            &&& forall|i: int|
                0 <= i < cl.len() ==> (#[trigger] envs@[i]).alias@ == spec_split(cl[i], ": "@)[0]
            &&& forall|i: int|
                0 <= i < cl.len() ==> (#[trigger] envs@[i]).heroku_app_name@ == spec_split(
                    cl[i],
                    ": "@,
                )[1]
        },
{
    proof {
        reveal_strlit(": ");
    }
    let all = lines_of(contents);
    let ghost lv = all.deep_view();
    let n = all.len();
    let mut envs: Vec<Env> = Vec::new();
    let mut k: usize = 0;
    proof {
        reveal(Seq::filter);
        assert(lv.take(0) =~= Seq::<Seq<char>>::empty());
    }
    while k < n
        invariant
            n == all.len(),
            lv == all.deep_view(),
            lv == spec_lines(contents@),
            k <= n,
            envs@.len() == lv.take(k as int).filter(nonempty_pred()).len(),
            forall|i: int|
                0 <= i < envs@.len() ==> spec_entry_ok(
                    #[trigger] lv.take(k as int).filter(nonempty_pred())[i],
                ),
            forall|i: int|
                0 <= i < envs@.len() ==> (#[trigger] envs@[i]).alias@ == spec_split(
                    lv.take(k as int).filter(nonempty_pred())[i],
                    ": "@,
                )[0],
            forall|i: int|
                0 <= i < envs@.len() ==> (#[trigger] envs@[i]).heroku_app_name@ == spec_split(
                    lv.take(k as int).filter(nonempty_pred())[i],
                    ": "@,
                )[1],
        decreases n - k,
    {
        proof {
            reveal_strlit(": ");
        }
        let ghost l = lv[k as int];
        let ghost fl_before = lv.take(k as int).filter(nonempty_pred());
        let line = &all[k];
        if !line.as_str().is_empty() {
            let parts = split_str(line.as_str(), ": ");
            if parts.len() < 2 {
                proof {
                    reveal(Seq::filter);
                    assert(spec_config_lines(contents@).contains(l));
                    if spec_config_ok(contents@) {
                        let cl = spec_config_lines(contents@);
                        let i = choose|i: int| 0 <= i < cl.len() && cl[i] == l;
                        assert(spec_entry_ok(cl[i]));
                        assert(spec_split(l, ": "@).len() == parts.deep_view().len());
                    }
                }
                return None;
            }
            let alias = parts[0].clone();
            let app = parts[1].clone();
            envs.push(Env { heroku_app_name: app, alias: alias });
            proof {
                reveal(Seq::filter);
                assert(lv.take(k as int + 1).drop_last() =~= lv.take(k as int));
                assert(lv.take(k as int + 1).last() == l);
                let fl_after = lv.take(k as int + 1).filter(nonempty_pred());
                assert(fl_after == fl_before.push(l));
                assert(spec_split(l, ": "@) == parts.deep_view());
            }
        } else {
            proof {
                reveal(Seq::filter);
                assert(lv.take(k as int + 1).drop_last() =~= lv.take(k as int));
                assert(lv.take(k as int + 1).last() == l);
                assert(lv.take(k as int + 1).filter(nonempty_pred()) == fl_before);
            }
        }
        k += 1;
    }
    proof {
        assert(lv.take(n as int) =~= lv);
    }
    Some(envs)
}

} // verus!
