//! Alias expansion: before execution, configured names rewrite to
//! parameterised sub-trees.  A `{N}` string inside a template stands
//! for the N-th argument of the calling node, not counting a leading
//! image produced by chaining; a missing index is an explicit error.

use vstd::prelude::*;
use crate::filter::{Filter, FilterArg, FilterView, ArgView, clone_arg, lemma_filter_view};
use crate::error::{FilterError, ErrorView};
use crate::pipeline::{digits_end, digits_val, is_digit};
use crate::url::spec_full_parse;

verus! {

/// The index of the first `{digits}` placeholder in `s` at or after
/// `i`, clamped to the machine range.
pub open spec fn spec_placeholder_from(s: Seq<u8>, i: int) -> Option<nat>
    decreases s.len() - i,
{
    if !(0 <= i < s.len()) {
        None
    } else if s[i] == ('{' as u8) && digits_end(s, i + 1) > i + 1 && digits_end(s, i + 1)
        < s.len() && s[digits_end(s, i + 1)] == ('}' as u8) {
        Some(digits_val(s, i + 1, digits_end(s, i + 1)))
    } else {
        spec_placeholder_from(s, i + 1)
    }
}

/// The first placeholder index in `s`, clamped to `usize`.
pub open spec fn spec_placeholder(s: Seq<u8>) -> Option<usize> {
    match spec_placeholder_from(s, 0) {
        Some(v) => if v > usize::MAX {
            Some(usize::MAX)
        } else {
            Some(v as usize)
        },
        None => None,
    }
}

/// Finds the first `{digits}` placeholder in `s`.
fn find_placeholder(s: &[u8]) -> (r: Option<usize>)
    ensures
        r == spec_placeholder(s@),
{
    let n = s.len();
    let mut i: usize = 0;
    while i < n
        invariant
            i <= n,
            n == s@.len(),
            spec_placeholder_from(s@, 0) == spec_placeholder_from(s@, i as int),
        decreases n - i,
    {
        if s[i] == '{' as u8 {
            let de = crate::pipeline::scan_digits(s, i + 1);
            if de > i + 1 && de < n && s[de] == '}' as u8 {
                let mut acc: u128 = 0;
                let mut j: usize = i + 1;
                while j < de
                    invariant
                        i + 1 <= j <= de <= n,
                        n == s@.len(),
                        forall|t: int| i + 1 <= t < de ==> is_digit(s@[t]),
                        acc == digits_val(s@, i + 1 as int, j as int) || (acc > usize::MAX
                            && digits_val(s@, i + 1 as int, j as int) > usize::MAX),
                        acc <= (usize::MAX as u128) * 10 + 9,
                    decreases de - j,
                {
                    proof {
                        crate::pipeline::lemma_digits_val_mono(s@, i + 1 as int, j as int, j + 1 as int);
                    }
                    let d = (s[j] - '0' as u8) as u128;
                    if acc > usize::MAX as u128 {
                        acc = usize::MAX as u128 + 1;
                    } else {
                        acc = acc * 10 + d;
                    }
                    j += 1;
                }
                let v: usize = if acc > usize::MAX as u128 {
                    usize::MAX
                } else {
                    acc as usize
                };
                return Some(v);
            }
        }
        i += 1;
    }
    None
}

/// One substitution step on a template argument.
pub open spec fn spec_subst_arg(a: ArgView, subst: Seq<ArgView>) -> Result<ArgView, usize>
    decreases a,
{
    match a {
        ArgView::Img(t) => match spec_apply_alias(t, subst) {
            Ok(t2) => Ok(ArgView::Img(t2)),
            Err(n) => Err(n),
        },
        ArgView::Str(s) => match spec_placeholder(s) {
            Some(n) => if n < subst.len() {
                Ok(subst[n as int])
            } else {
                Err(n)
            },
            None => Ok(a),
        },
        _ => Ok(a),
    }
}

pub open spec fn spec_subst_args(t: FilterView, i: int, subst: Seq<ArgView>) -> Result<
    Seq<ArgView>,
    usize,
>
    decreases t, t.args.len() - i,
{
    if i < 0 || i >= t.args.len() {
        Ok(Seq::empty())
    } else {
        match spec_subst_arg(t.args[i], subst) {
            Ok(a) => match spec_subst_args(t, i + 1, subst) {
                Ok(rest) => Ok(seq![a] + rest),
                Err(n) => Err(n),
            },
            Err(n) => Err(n),
        }
    }
}

/// Substitutes the call's arguments into a parsed template, depth
/// first; fails with the first missing index.
pub open spec fn spec_apply_alias(t: FilterView, subst: Seq<ArgView>) -> Result<FilterView, usize>
    decreases t, t.args.len() + 1,
{
    match spec_subst_args(t, 0, subst) {
        Ok(args) => Ok(FilterView { name: t.name, args }),
        Err(n) => Err(n),
    }
}

/// Substitutes `subst` into the template tree.
pub fn apply_alias_args(template: &Filter, subst: &Vec<FilterArg>) -> (r: Result<
    Filter,
    FilterError,
>)
    ensures
        match (r, spec_apply_alias(template@, subst@.map_values(|a: FilterArg| a@))) {
            (Ok(f), Ok(fv)) => f@ == fv,
            (Err(e), Err(n)) => e@ == ErrorView::MissingAliasArgument(n),
            _ => false,
        },
    decreases *template, template.args@.len() + 1,
{
    let ghost sv = subst@.map_values(|a: FilterArg| a@);
    let name = crate::text::copy_bytes(template.name.as_slice());
    let mut args: Vec<FilterArg> = Vec::new();
    let mut i: usize = 0;
    proof {
        lemma_filter_view(*template);
        assert(args@.map_values(|x: FilterArg| x@) =~= Seq::<ArgView>::empty());
        match spec_subst_args(template@, 0, sv) {
            Ok(rest) => {
                assert(Seq::<ArgView>::empty() + rest =~= rest);
            }
            Err(_) => {}
        }
    }
    while i < template.args.len()
        invariant
            i <= template.args@.len(),
            sv == subst@.map_values(|a: FilterArg| a@),
            args@.len() == i,
            forall|j: int|
                0 <= j < template.args@.len() ==> template@.args[j] == template.args@[j]@,
            template@.args.len() == template.args@.len(),
            ({
                let done = spec_subst_args(template@, i as int, sv);
                let full = spec_subst_args(template@, 0, sv);
                match done {
                    Ok(rest) => full == Ok::<Seq<ArgView>, usize>(
                        args@.map_values(|a: FilterArg| a@) + rest,
                    ),
                    Err(n) => full == Err::<Seq<ArgView>, usize>(n),
                }
            }),
        decreases template.args@.len() - i,
    {
        let a = &template.args[i];
        let ghost prevargs = args@.map_values(|x: FilterArg| x@);
        let replaced: FilterArg = match a {
            FilterArg::Img(t) => {
                proof {
                    assert(template@.args[i as int] == ArgView::Img(t@));
                }
                match apply_alias_args(t, subst) {
                    Ok(t2) => FilterArg::Img(t2),
                    Err(e) => {
                        return Err(e);
                    }
                }
            }
            FilterArg::Str(s) => {
                proof {
                    assert(template@.args[i as int] == ArgView::Str(s@));
                }
                match find_placeholder(s.as_slice()) {
                    Some(n) => {
                        if n < subst.len() {
                            proof {
                                assert(sv[n as int] == subst@[n as int]@);
                            }
                            clone_arg(&subst[n])
                        } else {
                            return Err(FilterError::MissingAliasArgument(n));
                        }
                    }
                    None => clone_arg(a),
                }
            }
            _ => clone_arg(a),
        };
        let ghost rv = replaced@;
        args.push(replaced);
        proof {
            assert(args@.map_values(|x: FilterArg| x@) =~= prevargs.push(rv));
            assert(spec_subst_arg(template@.args[i as int], sv) == Ok::<ArgView, usize>(rv));
            match spec_subst_args(template@, i + 1 as int, sv) {
                Ok(rest) => {
                    assert(spec_subst_args(template@, i as int, sv) == Ok::<Seq<ArgView>, usize>(
                        seq![rv] + rest,
                    ));
                    assert(prevargs.push(rv) + rest =~= prevargs + (seq![rv] + rest));
                }
                Err(_) => {}
            }
        }
        i += 1;
    }
    let f = Filter { name, args };
    proof {
        lemma_filter_view(f);
        assert(f@.args =~= f.args@.map_values(|x: FilterArg| x@));
        assert(spec_subst_args(template@, template.args@.len() as int, sv) == Ok::<
            Seq<ArgView>,
            usize,
        >(Seq::empty()));
        assert(f@.args =~= f.args@.map_values(|x: FilterArg| x@) + Seq::<ArgView>::empty());
        assert(f@ =~= spec_apply_alias(template@, sv)->Ok_0);
    }
    Ok(f)
}

/// The template bound to a name, first binding wins.
pub open spec fn spec_lookup(aliases: Seq<(Seq<u8>, Seq<u8>)>, name: Seq<u8>) -> Option<Seq<u8>>
    decreases aliases.len(),
{
    if aliases.len() == 0 {
        None
    } else if aliases[0].0 == name {
        Some(aliases[0].1)
    } else {
        spec_lookup(aliases.drop_first(), name)
    }
}

/// Looks a name up in the alias table.
pub fn lookup_alias(aliases: &Vec<(Vec<u8>, Vec<u8>)>, name: &[u8]) -> (r: Option<Vec<u8>>)
    ensures
        ({
            let av = aliases@.map_values(|p: (Vec<u8>, Vec<u8>)| (p.0@, p.1@));
            match r {
                Some(t) => spec_lookup(av, name@) == Some(t@),
                None => spec_lookup(av, name@) is None,
            }
        }),
{
    let ghost av = aliases@.map_values(|p: (Vec<u8>, Vec<u8>)| (p.0@, p.1@));
    let mut i: usize = 0;
    proof {
        assert(av.skip(0) =~= av);
    }
    while i < aliases.len()
        invariant
            i <= aliases@.len(),
            av == aliases@.map_values(|p: (Vec<u8>, Vec<u8>)| (p.0@, p.1@)),
            spec_lookup(av, name@) == spec_lookup(av.skip(i as int), name@),
        decreases aliases@.len() - i,
    {
        proof {
            assert(av.skip(i as int)[0] == av[i as int]);
            assert(av.skip(i as int).drop_first() =~= av.skip(i as int + 1));
        }
        if crate::text::bytes_eq(aliases[i].0.as_slice(), name) {
            return Some(crate::text::copy_bytes(aliases[i].1.as_slice()));
        }
        i += 1;
    }
    None
}

/// The arguments a template may address: a leading image produced by
/// chaining is the pipeline's input, not an alias argument.
pub open spec fn spec_subst_of(args: Seq<ArgView>) -> Seq<ArgView> {
    if args.len() > 0 && (args[0] is Img || args[0] is Resolved) {
        args.drop_first()
    } else {
        args
    }
}

/// Expands the children of `f` from position `i` on.
pub open spec fn spec_expand_args(
    f: FilterView,
    i: int,
    aliases: Seq<(Seq<u8>, Seq<u8>)>,
    allow: bool,
    secret: Option<Seq<u8>>,
) -> Result<Seq<ArgView>, crate::error::ErrorView>
    decreases f, f.args.len() - i,
{
    if i < 0 || i >= f.args.len() {
        Ok(Seq::empty())
    } else {
        let first: Result<ArgView, crate::error::ErrorView> = match f.args[i] {
            ArgView::Img(sub) => match spec_expand(sub, aliases, allow, secret) {
                Ok(s2) => Ok(ArgView::Img(s2)),
                Err(e) => Err(e),
            },
            a => Ok(a),
        };
        match first {
            Ok(a) => match spec_expand_args(f, i + 1, aliases, allow, secret) {
                Ok(rest) => Ok(seq![a] + rest),
                Err(e) => Err(e),
            },
            Err(e) => Err(e),
        }
    }
}

/// One bottom-up expansion pass: children first, then the node itself.
/// An alias name re-parses its template and substitutes the call's
/// arguments; any other name survives only where built-in filters are
/// allowed.
pub open spec fn spec_expand(
    f: FilterView,
    aliases: Seq<(Seq<u8>, Seq<u8>)>,
    allow: bool,
    secret: Option<Seq<u8>>,
) -> Result<FilterView, crate::error::ErrorView>
    decreases f, f.args.len() + 1,
{
    match spec_expand_args(f, 0, aliases, allow, secret) {
        Ok(newargs) => {
            match spec_lookup(aliases, f.name) {
                Some(t) => match spec_full_parse(t, secret) {
                    Ok(tpl) => match spec_apply_alias(tpl, spec_subst_of(newargs)) {
                        Ok(x) => Ok(x),
                        Err(n) => Err(crate::error::ErrorView::MissingAliasArgument(n)),
                    },
                    Err(e) => Err(crate::error::ErrorView::Url(e)),
                },
                None => if allow {
                    Ok(FilterView { name: f.name, args: newargs })
                } else {
                    Err(crate::error::ErrorView::UnknownFilter(f.name))
                },
            }
        }
        Err(e) => Err(e),
    }
}

/// Rewrites alias names to their expanded templates, bottom up.
pub fn apply_filter_aliases(
    f: &Filter,
    aliases: &Vec<(Vec<u8>, Vec<u8>)>,
    allow_builtin: bool,
    secret: Option<&Vec<u8>>,
) -> (r: Result<Filter, FilterError>)
    ensures
        ({
            let av = aliases@.map_values(|p: (Vec<u8>, Vec<u8>)| (p.0@, p.1@));
            match (r, spec_expand(f@, av, allow_builtin, crate::url::spec_secret(secret))) {
                (Ok(g), Ok(gv)) => g@ == gv,
                (Err(e), Err(ev)) => e@ == ev,
                _ => false,
            }
        }),
    decreases *f, f.args@.len() + 1,
{
    let ghost av = aliases@.map_values(|p: (Vec<u8>, Vec<u8>)| (p.0@, p.1@));
    let ghost sec = crate::url::spec_secret(secret);
    let mut newargs: Vec<FilterArg> = Vec::new();
    let mut i: usize = 0;
    proof {
        lemma_filter_view(*f);
        assert(newargs@.map_values(|x: FilterArg| x@) =~= Seq::<ArgView>::empty());
        match spec_expand_args(f@, 0, av, allow_builtin, sec) {
            Ok(rest) => {
                assert(Seq::<ArgView>::empty() + rest =~= rest);
            }
            Err(_) => {}
        }
    }
    while i < f.args.len()
        invariant
            i <= f.args@.len(),
            av == aliases@.map_values(|p: (Vec<u8>, Vec<u8>)| (p.0@, p.1@)),
            sec == crate::url::spec_secret(secret),
            newargs@.len() == i,
            forall|j: int| 0 <= j < f.args@.len() ==> f@.args[j] == f.args@[j]@,
            f@.args.len() == f.args@.len(),
            ({
                let done = spec_expand_args(f@, i as int, av, allow_builtin, sec);
                let full = spec_expand_args(f@, 0, av, allow_builtin, sec);
                match done {
                    Ok(rest) => full == Ok::<Seq<ArgView>, crate::error::ErrorView>(
                        newargs@.map_values(|a: FilterArg| a@) + rest,
                    ),
                    Err(e) => full == Err::<Seq<ArgView>, crate::error::ErrorView>(e),
                }
            }),
        decreases f.args@.len() - i,
    {
        let a = &f.args[i];
        let ghost prevargs = newargs@.map_values(|x: FilterArg| x@);
        let replaced: FilterArg = match a {
            FilterArg::Img(sub) => {
                proof {
                    assert(f@.args[i as int] == ArgView::Img(sub@));
                }
                match apply_filter_aliases(sub, aliases, allow_builtin, secret) {
                    Ok(s2) => FilterArg::Img(s2),
                    Err(e) => {
                        return Err(e);
                    }
                }
            }
            _ => clone_arg(a),
        };
        let ghost rv = replaced@;
        newargs.push(replaced);
        proof {
            assert(newargs@.map_values(|x: FilterArg| x@) =~= prevargs.push(rv));
            match spec_expand_args(f@, i + 1 as int, av, allow_builtin, sec) {
                Ok(rest) => {
                    assert(spec_expand_args(f@, i as int, av, allow_builtin, sec) == Ok::<
                        Seq<ArgView>,
                        crate::error::ErrorView,
                    >(seq![rv] + rest));
                    assert(prevargs.push(rv) + rest =~= prevargs + (seq![rv] + rest));
                }
                Err(_) => {}
            }
        }
        i += 1;
    }
    let ghost expanded = spec_expand_args(f@, 0, av, allow_builtin, sec)->Ok_0;
    proof {
        assert(spec_expand_args(f@, f.args@.len() as int, av, allow_builtin, sec) == Ok::<
            Seq<ArgView>,
            crate::error::ErrorView,
        >(Seq::empty()));
        assert(newargs@.map_values(|x: FilterArg| x@) + Seq::<ArgView>::empty()
            =~= newargs@.map_values(|x: FilterArg| x@));
    }
    match lookup_alias(aliases, f.name.as_slice()) {
        Some(template_url) => {
            let tpl = match crate::url::parse(template_url.as_slice(), secret) {
                Ok(tpl) => tpl,
                Err(e) => {
                    return Err(FilterError::Url(e));
                }
            };
            let mut subst: Vec<FilterArg> = Vec::new();
            let skip_first = if newargs.len() > 0 {
                match &newargs[0] {
                    FilterArg::Img(_) => true,
                    FilterArg::ResolvedImg(_) => true,
                    _ => false,
                }
            } else {
                false
            };
            let mut j: usize = if skip_first {
                1
            } else {
                0
            };
            let ghost start = j as int;
            while j < newargs.len()
                invariant
                    start <= j <= newargs@.len(),
                    0 <= start <= 1,
                    subst@.len() == j - start,
                    forall|t: int| 0 <= t < subst@.len() ==> subst@[t]@ == newargs@[t + start]@,
                decreases newargs@.len() - j,
            {
                subst.push(clone_arg(&newargs[j]));
                j += 1;
            }
            proof {
                assert(subst@.map_values(|x: FilterArg| x@) =~= spec_subst_of(
                    newargs@.map_values(|x: FilterArg| x@),
                ));
            }
            match apply_alias_args(&tpl, &subst) {
                Ok(g) => Ok(g),
                Err(e) => {
                    match &e {
                        FilterError::MissingAliasArgument(_) => Err(e),
                        _ => {
                            proof {
                                assert(false);
                            }
                            Err(e)
                        }
                    }
                }
            }
        }
        None => {
            if allow_builtin {
                let g = Filter { name: crate::text::copy_bytes(f.name.as_slice()), args: newargs };
                proof {
                    lemma_filter_view(g);
                    assert(g@.args =~= g.args@.map_values(|x: FilterArg| x@));
                    assert(g@ =~= (FilterView { name: f@.name, args: expanded }));
                }
                Ok(g)
            } else {
                Err(FilterError::UnknownFilter(crate::text::copy_bytes(f.name.as_slice())))
            }
        }
    }
}

} // verus!
