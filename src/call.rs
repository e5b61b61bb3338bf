use vstd::prelude::*;
use crate::ir::{IrArg, NodeId};
use crate::text::str_eq;

verus! {

/// A parameter of a user function: its name and, where it has one, the
/// node of its default expression.
#[derive(Debug, Clone)]
pub struct FnParam {
    pub name: String,
    pub default: Option<NodeId>,
}

/// Where the value of a parameter comes from in a call.
#[derive(Debug, Clone, Copy, PartialEq, Eq, Structural)]
pub enum ArgSource {
    /// The argument at this index.
    Arg(usize),
    /// The parameter's default expression.
    Default(NodeId),
}

/// Why the arguments of a call do not fit the parameters.
#[derive(Debug, Clone, Copy, PartialEq, Eq, Structural)]
pub enum ArityError {
    /// The named argument at this index names no parameter.
    UnknownName(usize),
    /// The positional argument at this index has no parameter left.
    TooMany(usize),
    /// The parameter at this index has no argument and no default.
    Missing(usize),
}

/// An optional index as an integer.
pub open spec fn opt_int(o: Option<usize>) -> Option<int> {
    match o {
        Some(x) => Some(x as int),
        None => None,
    }
}

/// The first parameter called `name`.
pub open spec fn param_named(ps: Seq<FnParam>, name: Seq<char>) -> Option<int>
    decreases ps.len(),
{
    if ps.len() == 0 {
        None
    } else {
        match param_named(ps.drop_last(), name) {
            Some(i) => Some(i),
            None => if ps.last().name@ == name { Some(ps.len() - 1) } else { None },
        }
    }
}

/// How many of the first `j` arguments are positional.
pub open spec fn positional_before(args: Seq<IrArg>, j: int) -> int
    decreases j,
{
    if j <= 0 {
        0
    } else {
        positional_before(args, j - 1) + if args[j - 1].name is None { 1int } else { 0int }
    }
}

/// The parameter that the argument at `j` goes to: the one it names, or
/// the next positional slot.
pub open spec fn target(ps: Seq<FnParam>, args: Seq<IrArg>, j: int) -> Option<int> {
    match args[j].name {
        Some(n) => param_named(ps, n.node@),
        None => if positional_before(args, j) < ps.len() { Some(positional_before(args, j)) } else { None },
    }
}

/// The last of the first `n` arguments that goes to parameter `i`.
pub open spec fn last_arg_for(ps: Seq<FnParam>, args: Seq<IrArg>, n: int, i: int) -> Option<int>
    decreases n,
{
    if n <= 0 {
        None
    } else if target(ps, args, n - 1) == Some(i) {
        Some(n - 1)
    } else {
        last_arg_for(ps, args, n - 1, i)
    }
}

/// Where parameter `i` takes its value from, once every argument has a
/// parameter.
pub open spec fn source_of(ps: Seq<FnParam>, args: Seq<IrArg>, i: int) -> Option<ArgSource> {
    match last_arg_for(ps, args, args.len() as int, i) {
        Some(j) => Some(ArgSource::Arg(j as usize)),
        None => match ps[i].default {
            Some(d) => Some(ArgSource::Default(d)),
            None => None,
        },
    }
}

/// The error for the argument at `j`, which goes to no parameter.
pub open spec fn arg_error(args: Seq<IrArg>, j: int) -> ArityError {
    if args[j].name is Some { ArityError::UnknownName(j as usize) } else { ArityError::TooMany(j as usize) }
}

/// Matches call arguments to parameters. Each named argument goes to the
/// first parameter of its name; each positional one to the next slot from
/// the left. The first argument that goes nowhere is an error. Then each
/// parameter takes its last argument, else its default; the first that has
/// neither is missing.
pub fn resolve_args(params: &Vec<FnParam>, args: &Vec<IrArg>) -> (r: Result<Vec<ArgSource>, ArityError>)
    ensures
        match r {
            Ok(srcs) => {
                &&& forall|j: int| 0 <= j < args@.len() ==> (#[trigger] target(params@, args@, j)) is Some
                &&& srcs@.len() == params@.len()
                &&& forall|i: int| 0 <= i < params@.len() ==> source_of(params@, args@, i) == Some(#[trigger] srcs@[i])
            },
            Err(ArityError::Missing(i)) => {
                &&& forall|j: int| 0 <= j < args@.len() ==> (#[trigger] target(params@, args@, j)) is Some
                &&& 0 <= i < params@.len()
                &&& source_of(params@, args@, i as int) is None
                &&& forall|k: int| 0 <= k < i ==> (#[trigger] source_of(params@, args@, k)) is Some
            },
            Err(e) => exists|j: int| {
                &&& 0 <= j < args@.len()
                &&& target(params@, args@, j) is None
                &&& e == arg_error(args@, j)
                &&& forall|k: int| 0 <= k < j ==> (#[trigger] target(params@, args@, k)) is Some
            },
        },
{
    let mut slots: Vec<Option<usize>> = Vec::new();
    let mut i: usize = 0;
    while i < params.len()
        invariant
            i <= params@.len(),
            slots@.len() == i,
            forall|k: int| 0 <= k < i ==> (#[trigger] slots@[k]) is None,
        decreases params@.len() - i,
    {
        slots.push(None);
        i = i + 1;
    }
    let mut positional: usize = 0;
    let mut j: usize = 0;
    while j < args.len()
        invariant
            j <= args@.len(),
            slots@.len() == params@.len(),
            positional == positional_before(args@, j as int),
            positional <= j,
            forall|k: int| 0 <= k < j ==> (#[trigger] target(params@, args@, k)) is Some,
            forall|k: int| 0 <= k < params@.len() ==> (#[trigger] slots@[k]) == match last_arg_for(params@, args@, j as int, k) {
                Some(a) => Some(a as usize),
                None => None::<usize>,
            },
        decreases args@.len() - j,
    {
        let t = match &args[j].name {
            Some(n) => param_index(params, n.node.as_str()),
            None => {
                if positional < params.len() {
                    Some(positional)
                } else {
                    None
                }
            },
        };
        proof {
            assert(opt_int(t) == target(params@, args@, j as int));
        }
        match t {
            Some(p) => {
                slots[p] = Some(j);
            },
            None => {
                proof {
                    let jj = j as int;
                    assert(target(params@, args@, jj) is None);
                    assert(forall|k: int| 0 <= k < jj ==> (#[trigger] target(params@, args@, k)) is Some);
                    assert(args@[jj].name is Some ==> arg_error(args@, jj) == ArityError::UnknownName(j));
                    assert(args@[jj].name is None ==> arg_error(args@, jj) == ArityError::TooMany(j));
                }
                return Err(if args[j].name.is_some() {
                    ArityError::UnknownName(j)
                } else {
                    ArityError::TooMany(j)
                });
            },
        }
        if args[j].name.is_none() {
            positional = positional + 1;
        }
        j = j + 1;
    }
    let mut srcs: Vec<ArgSource> = Vec::new();
    let mut i: usize = 0;
    while i < params.len()
        invariant
            i <= params@.len(),
            slots@.len() == params@.len(),
            srcs@.len() == i,
            forall|k: int| 0 <= k < args@.len() ==> (#[trigger] target(params@, args@, k)) is Some,
            forall|k: int| 0 <= k < params@.len() ==> (#[trigger] slots@[k]) == match last_arg_for(params@, args@, args@.len() as int, k) {
                Some(a) => Some(a as usize),
                None => None::<usize>,
            },
            forall|k: int| 0 <= k < i ==> source_of(params@, args@, k) == Some(#[trigger] srcs@[k]),
        decreases params@.len() - i,
    {
        match slots[i] {
            Some(a) => {
                srcs.push(ArgSource::Arg(a));
            },
            None => {
                match params[i].default {
                    Some(d) => {
                        srcs.push(ArgSource::Default(d));
                    },
                    None => {
                        proof {
                            assert(source_of(params@, args@, i as int) is None);
                            assert forall|k: int| 0 <= k < i implies (#[trigger] source_of(params@, args@, k)) is Some by {
                                assert(source_of(params@, args@, k) == Some(srcs@[k]));
                            }
                        }
                        return Err(ArityError::Missing(i));
                    },
                }
            },
        }
        i = i + 1;
    }
    Ok(srcs)
}

/// More positional arguments than parameters: some argument goes to no
/// parameter, so `resolve_args` reports an arity error.
pub proof fn lemma_too_many_positional(ps: Seq<FnParam>, args: Seq<IrArg>)
    requires
        positional_before(args, args.len() as int) > ps.len(),
    ensures
        !(forall|j: int| 0 <= j < args.len() ==> (#[trigger] target(ps, args, j)) is Some),
{
    let j = lemma_slot_overflow(ps, args, args.len() as int);
    assert(target(ps, args, j) is None);
}

/// Among the first `n` arguments, the positional one that finds every
/// slot taken.
proof fn lemma_slot_overflow(ps: Seq<FnParam>, args: Seq<IrArg>, n: int) -> (j: int)
    requires
        0 <= n <= args.len(),
        positional_before(args, n) > ps.len(),
    ensures
        0 <= j < n,
        args[j].name is None,
        positional_before(args, j) == ps.len(),
    decreases n,
{
    if positional_before(args, n - 1) > ps.len() {
        lemma_slot_overflow(ps, args, n - 1)
    } else {
        n - 1
    }
}

/// A parameter with a default that no argument goes to takes its default.
pub proof fn lemma_default_used(ps: Seq<FnParam>, args: Seq<IrArg>, i: int, d: NodeId)
    requires
        0 <= i < ps.len(),
        ps[i].default == Some(d),
        forall|j: int| 0 <= j < args.len() ==> (#[trigger] target(ps, args, j)) != Some(i),
    ensures
        source_of(ps, args, i) == Some(ArgSource::Default(d)),
{
    lemma_no_arg_for(ps, args, args.len() as int, i);
}

proof fn lemma_no_arg_for(ps: Seq<FnParam>, args: Seq<IrArg>, n: int, i: int)
    requires
        0 <= n <= args.len(),
        forall|j: int| 0 <= j < args.len() ==> (#[trigger] target(ps, args, j)) != Some(i),
    ensures
        last_arg_for(ps, args, n, i) is None,
    decreases n,
{
    if n > 0 {
        assert(target(ps, args, n - 1) != Some(i));
        lemma_no_arg_for(ps, args, n - 1, i);
    }
}

/// The index of the first parameter called `name`.
fn param_index(params: &Vec<FnParam>, name: &str) -> (r: Option<usize>)
    ensures
        opt_int(r) == param_named(params@, name@),
        r matches Some(x) ==> x < params@.len(),
{
    let mut i: usize = 0;
    while i < params.len()
        invariant
            i <= params@.len(),
            param_named(params@.take(i as int), name@) is None,
        decreases params@.len() - i,
    {
        proof {
            assert(params@.take(i + 1).drop_last() =~= params@.take(i as int));
        }
        if str_eq(params[i].name.as_str(), name) {
            proof {
                lemma_param_named_prefix(params@, i + 1, name@);
            }
            return Some(i);
        }
        i = i + 1;
    }
    proof {
        assert(params@.take(params@.len() as int) =~= params@);
    }
    None
}

/// Once found in a prefix, the first parameter of a name stays the first.
proof fn lemma_param_named_prefix(ps: Seq<FnParam>, n: int, name: Seq<char>)
    requires
        0 <= n <= ps.len(),
        param_named(ps.take(n), name) is Some,
    ensures
        param_named(ps, name) == param_named(ps.take(n), name),
    decreases ps.len(),
{
    if n < ps.len() {
        assert(ps.drop_last().take(n) =~= ps.take(n));
        lemma_param_named_prefix(ps.drop_last(), n, name);
    } else {
        assert(ps.take(n) =~= ps);
    }
}

} // verus!
