use vstd::prelude::*;

use crate::model::Repo;
use crate::score::{readme_signals, score_readme, score_view};
use crate::text::{lemma_lex_asymmetric, lemma_lex_irreflexive, lemma_lex_total, lemma_lex_transitive, lex_lt, str_lt};

verus! {

/// What a run is asked to do.
pub struct Options {
    pub login: String,
    pub out_dir: String,
    pub max_repos: usize,
    pub skip_readme: bool,
}

/// Why a run is refused before it starts.
#[derive(Debug, Clone, Copy, PartialEq, Eq)]
pub enum RunError {
    /// No GitHub username was given.
    MissingLogin,
}

/// The output directory used when none is given.
pub open spec fn default_out_dir() -> Seq<char> {
    "devfolio-out"@
}

/// The number of repositories kept when no positive limit is given.
pub open spec fn default_max_repos() -> usize {
    12
}

/// Checks the options of a run and fills in the defaults: an empty login is refused, an
/// empty output directory becomes `devfolio-out` and a limit of zero becomes twelve.
pub fn normalize_options(opt: Options) -> (r: Result<Options, RunError>)
    ensures
        r is Err <==> opt.login@.len() == 0,
        r matches Err(e) ==> e == RunError::MissingLogin,
        r matches Ok(o) ==> {
            &&& o.login@ == opt.login@
            &&& o.out_dir@ == if opt.out_dir@.len() == 0 {
                default_out_dir()
            } else {
                opt.out_dir@
            }
            &&& o.max_repos == if opt.max_repos == 0 {
                default_max_repos()
            } else {
                opt.max_repos
            }
            &&& o.skip_readme == opt.skip_readme
            &&& o.login@.len() > 0
            &&& o.out_dir@.len() > 0
            &&& o.max_repos > 0
        },
{
    if opt.login.as_str().is_empty() {
        return Err(RunError::MissingLogin);
    }
    proof {
        reveal_strlit("devfolio-out");
    }
    let out_dir = if opt.out_dir.as_str().is_empty() {
        "devfolio-out".to_owned()
    } else {
        opt.out_dir
    };
    let max_repos = if opt.max_repos == 0 {
        12
    } else {
        opt.max_repos
    };
    Ok(Options { login: opt.login, out_dir, max_repos, skip_readme: opt.skip_readme })
}

/// Without a directory the pages go to `devfolio-out`; without a positive limit twelve
/// repositories are kept.
pub proof fn law_defaults()
    ensures
        default_out_dir() == "devfolio-out"@,
        default_max_repos() == 12,
{
}

/// `a` is listed before `b`: more stars first, then by name.
pub open spec fn sorts_before(a: Repo, b: Repo) -> bool {
    ||| a.stargazers_count > b.stargazers_count
    ||| a.stargazers_count == b.stargazers_count && lex_lt(a.name@, b.name@)
}

pub proof fn lemma_sorts_before_asymmetric(a: Repo, b: Repo)
    requires
        sorts_before(a, b),
    ensures
        !sorts_before(b, a),
{
    if a.stargazers_count == b.stargazers_count {
        lemma_lex_asymmetric(a.name@, b.name@);
    }
}

/// When `a` comes before `b` and `c` does not, `a` comes before `c`.
pub proof fn lemma_sorts_before_chain(a: Repo, b: Repo, c: Repo)
    requires
        sorts_before(a, b),
        !sorts_before(c, b),
    ensures
        sorts_before(a, c),
{
    if a.stargazers_count == c.stargazers_count {
        lemma_lex_total(b.name@, c.name@);
        if a.stargazers_count == b.stargazers_count {
            if lex_lt(b.name@, c.name@) {
                lemma_lex_transitive(a.name@, b.name@, c.name@);
            }
        }
    }
}

pub fn repo_before(a: &Repo, b: &Repo) -> (r: bool)
    ensures
        r == sorts_before(*a, *b),
{
    if a.stargazers_count > b.stargazers_count {
        true
    } else if a.stargazers_count == b.stargazers_count {
        str_lt(a.name.as_str(), b.name.as_str())
    } else {
        false
    }
}

/// `p` lists each of `0 .. n` exactly once.
pub open spec fn is_permutation(p: Seq<int>, n: int) -> bool {
    &&& p.len() == n
    &&& forall|i: int| 0 <= i < n ==> 0 <= #[trigger] p[i] < n
    &&& forall|i: int, j: int| 0 <= i < j < n ==> p[i] != p[j]
}

/// `out` holds the repositories of `inp`, each once, most stars first and then by name,
/// and repositories that tie on both keep the order they had in `inp`: what a stable sort
/// by (stars descending, name ascending) gives.
pub open spec fn is_stable_sort_of(out: Seq<Repo>, inp: Seq<Repo>) -> bool {
    exists|p: Seq<int>| #[trigger] is_permutation(p, inp.len() as int) && stable_sort_witness(out, inp, p)
}

pub open spec fn stable_sort_witness(out: Seq<Repo>, inp: Seq<Repo>, p: Seq<int>) -> bool {
    &&& out.len() == inp.len()
    &&& forall|k: int| 0 <= k < out.len() ==> out[k] == inp[#[trigger] p[k]]
    &&& forall|i: int, j: int| 0 <= i < j < out.len() ==> !sorts_before(#[trigger] out[j], #[trigger] out[i])
    &&& forall|i: int, j: int|
        0 <= i < j < out.len() && !sorts_before(#[trigger] out[i], #[trigger] out[j]) ==> p[i] < p[j]
}

/// Sorts repositories by stars (most first), then by name, keeping the input order of ties.
pub fn sort_repos(repos: Vec<Repo>) -> (out: Vec<Repo>)
    ensures
        is_stable_sort_of(out@, repos@),
{
    let ghost inp = repos@;
    let mut rest = repos;
    let mut out: Vec<Repo> = Vec::new();
    let ghost mut p: Seq<int> = Seq::empty();
    let mut m: usize = 0;
    let n = rest.len();
    while rest.len() > 0
        invariant
            m <= inp.len(),
            inp.len() == n,
            rest@ == inp.skip(m as int),
            out@.len() == m,
            p.len() == m,
            forall|i: int| 0 <= i < m ==> 0 <= #[trigger] p[i] < m,
            forall|i: int, j: int| 0 <= i < j < m ==> p[i] != p[j],
            forall|k: int| 0 <= k < m ==> out@[k] == inp[#[trigger] p[k]],
            forall|i: int, j: int| 0 <= i < j < m ==> !sorts_before(#[trigger] out@[j], #[trigger] out@[i]),
            forall|i: int, j: int|
                0 <= i < j < m && !sorts_before(#[trigger] out@[i], #[trigger] out@[j]) ==> p[i] < p[j],
        decreases rest@.len(),
    {
        assert(m < n);
        let x = rest.remove(0);
        assert(x == inp[m as int]);
        let mut pos: usize = 0;
        while pos < out.len() && !repo_before(&x, &out[pos])
            invariant
                pos <= out@.len(),
                forall|k: int| 0 <= k < pos ==> !sorts_before(x, #[trigger] out@[k]),
            decreases out@.len() - pos,
        {
            pos = pos + 1;
        }
        let ghost old_out = out@;
        let ghost old_p = p;
        proof {
            // everything from `pos` on comes strictly after `x`
            assert forall|k: int| pos <= k < old_out.len() implies sorts_before(x, #[trigger] old_out[k]) by {
                if k > pos {
                    lemma_sorts_before_chain(x, old_out[pos as int], old_out[k]);
                }
            }
        }
        out.insert(pos, x);
        proof {
            p = old_p.insert(pos as int, m as int);
            assert forall|k: int| 0 <= k < m + 1 implies out@[k] == inp[#[trigger] p[k]] by {
                if k < pos {
                    assert(out@[k] == old_out[k] && p[k] == old_p[k]);
                } else if k > pos {
                    assert(out@[k] == old_out[k - 1] && p[k] == old_p[k - 1]);
                }
            }
            assert forall|i: int| 0 <= i < m + 1 implies 0 <= #[trigger] p[i] < m + 1 by {
                if i < pos {
                    assert(p[i] == old_p[i]);
                } else if i > pos {
                    assert(p[i] == old_p[i - 1]);
                }
            }
            assert forall|i: int, j: int| 0 <= i < j < m + 1 implies p[i] != p[j] by {
                if i < pos && j < pos {
                    assert(p[i] == old_p[i] && p[j] == old_p[j]);
                } else if i < pos && j > pos {
                    assert(p[i] == old_p[i] && p[j] == old_p[j - 1]);
                } else if i > pos {
                    assert(p[i] == old_p[i - 1] && p[j] == old_p[j - 1]);
                } else if i < pos && j == pos {
                    assert(p[i] == old_p[i]);
                } else {
                    assert(p[j] == old_p[j - 1]);
                }
            }
            assert forall|i: int, j: int| 0 <= i < j < m + 1 implies !sorts_before(
                #[trigger] out@[j],
                #[trigger] out@[i],
            ) by {
                if j < pos {
                    assert(out@[i] == old_out[i] && out@[j] == old_out[j]);
                } else if j == pos {
                    assert(out@[i] == old_out[i]);
                } else if i == pos {
                    assert(out@[j] == old_out[j - 1]);
                    lemma_sorts_before_asymmetric(x, old_out[j - 1]);
                } else if i < pos {
                    assert(out@[i] == old_out[i] && out@[j] == old_out[j - 1]);
                } else {
                    assert(out@[i] == old_out[i - 1] && out@[j] == old_out[j - 1]);
                }
            }
            assert forall|i: int, j: int|
                0 <= i < j < m + 1 && !sorts_before(#[trigger] out@[i], #[trigger] out@[j]) implies p[i]
                < p[j] by {
                if j < pos {
                    assert(out@[i] == old_out[i] && out@[j] == old_out[j]);
                    assert(p[i] == old_p[i] && p[j] == old_p[j]);
                } else if j == pos {
                    assert(p[i] == old_p[i]);
                } else if i == pos {
                    assert(out@[j] == old_out[j - 1]);
                } else if i < pos {
                    assert(out@[i] == old_out[i] && out@[j] == old_out[j - 1]);
                    assert(p[i] == old_p[i] && p[j] == old_p[j - 1]);
                } else {
                    assert(out@[i] == old_out[i - 1] && out@[j] == old_out[j - 1]);
                    assert(p[i] == old_p[i - 1] && p[j] == old_p[j - 1]);
                }
            }
            assert(inp.skip(m + 1) =~= inp.skip(m as int).remove(0));
        }
        m = m + 1;
    }
    assert(is_permutation(p, inp.len() as int));
    assert(stable_sort_witness(out@, inp, p));
    out
}

/// The order a stable sort puts input positions in: by key, ties by position.
pub open spec fn index_before(inp: Seq<Repo>, i: int, j: int) -> bool {
    ||| sorts_before(inp[i], inp[j])
    ||| !sorts_before(inp[j], inp[i]) && i < j
}

proof fn lemma_witness_increasing(out: Seq<Repo>, inp: Seq<Repo>, p: Seq<int>, k: int, l: int)
    requires
        is_permutation(p, inp.len() as int),
        stable_sort_witness(out, inp, p),
        0 <= k < l < out.len(),
    ensures
        index_before(inp, p[k], p[l]),
{
    assert(out[k] == inp[p[k]]);
    assert(out[l] == inp[p[l]]);
    assert(!sorts_before(out[l], out[k]));
    if !sorts_before(out[k], out[l]) {
        assert(p[k] < p[l]);
    }
}

/// Every position of the input appears in a permutation of it.
proof fn lemma_permutation_onto(p: Seq<int>, n: int, j: int)
    requires
        is_permutation(p, n),
        0 <= j < n,
    ensures
        p.contains(j),
{
    assert(p.no_duplicates()) by {
        assert forall|a: int, b: int| 0 <= a < p.len() && 0 <= b < p.len() && a != b implies p[a]
            != p[b] by {
            if a < b {
            } else {
            }
        }
    }
    p.unique_seq_to_set();
    vstd::set_lib::lemma_int_range(0, n);
    let r = vstd::set_lib::set_int_range(0, n);
    assert(p.to_set().subset_of(r)) by {
        assert forall|x: int| p.to_set().contains(x) implies r.contains(x) by {
            assert(p.contains(x));
            let i = choose|i: int| 0 <= i < p.len() && p[i] == x;
            assert(0 <= p[i] < n);
        }
    }
    vstd::set_lib::lemma_len_subset(p.to_set(), r);
    vstd::set_lib::lemma_subset_equality(p.to_set(), r);
    assert(r.contains(j));
    assert(p.to_set().contains(j));
}

proof fn lemma_witnesses_agree_below(
    a: Seq<Repo>,
    b: Seq<Repo>,
    inp: Seq<Repo>,
    p: Seq<int>,
    q: Seq<int>,
    k: int,
)
    requires
        is_permutation(p, inp.len() as int),
        is_permutation(q, inp.len() as int),
        stable_sort_witness(a, inp, p),
        stable_sort_witness(b, inp, q),
        0 <= k <= inp.len(),
    ensures
        forall|i: int| 0 <= i < k ==> p[i] == q[i],
    decreases k,
{
    if k > 0 {
        lemma_witnesses_agree_below(a, b, inp, p, q, k - 1);
        let n = inp.len() as int;
        let x = p[k - 1];
        let y = q[k - 1];
        if x != y {
            lemma_permutation_onto(q, n, x);
            let l = choose|l: int| 0 <= l < q.len() && q[l] == x;
            lemma_permutation_onto(p, n, y);
            let m = choose|m: int| 0 <= m < p.len() && p[m] == y;
            if l < k - 1 {
                assert(p[l] == q[l]);
            }
            if m < k - 1 {
                assert(p[m] == q[m]);
            }
            assert(l > k - 1 && m > k - 1);
            lemma_witness_increasing(b, inp, q, k - 1, l);
            lemma_witness_increasing(a, inp, p, k - 1, m);
            if sorts_before(inp[y], inp[x]) {
                lemma_sorts_before_asymmetric(inp[y], inp[x]);
            }
            if sorts_before(inp[x], inp[y]) {
                lemma_sorts_before_asymmetric(inp[x], inp[y]);
            }
        }
    }
}

/// A stable sort by (stars descending, name ascending) has one outcome only: the order of
/// the portfolio is fully determined by the repositories it is given.
pub proof fn law_stable_sort_is_unique(a: Seq<Repo>, b: Seq<Repo>, inp: Seq<Repo>)
    requires
        is_stable_sort_of(a, inp),
        is_stable_sort_of(b, inp),
    ensures
        a == b,
{
    let p = choose|p: Seq<int>| #[trigger] is_permutation(p, inp.len() as int) && stable_sort_witness(a, inp, p);
    let q = choose|q: Seq<int>| #[trigger] is_permutation(q, inp.len() as int) && stable_sort_witness(b, inp, q);
    lemma_witnesses_agree_below(a, b, inp, p, q, inp.len() as int);
    assert forall|k: int| 0 <= k < a.len() implies a[k] == b[k] by {
        assert(a[k] == inp[p[k]]);
        assert(b[k] == inp[q[k]]);
    }
    assert(a =~= b);
}

/// What a stable sort's order amounts to, field by field: more stars always come first,
/// repositories with as many stars come in name order, and every repository listed is one
/// of the input's. Nothing else (forks, language, description) has a say.
pub proof fn law_sorted_by_stars_then_name(out: Seq<Repo>, inp: Seq<Repo>)
    requires
        is_stable_sort_of(out, inp),
    ensures
        out.len() == inp.len(),
        forall|i: int, j: int|
            0 <= i < j < out.len() ==> (#[trigger] out[i]).stargazers_count >= (#[trigger] out[j]).stargazers_count,
        forall|i: int, j: int|
            0 <= i < j < out.len() && (#[trigger] out[i]).stargazers_count == (#[trigger] out[j]).stargazers_count
                ==> !lex_lt(out[j].name@, out[i].name@),
        forall|k: int| 0 <= k < out.len() ==> inp.contains(#[trigger] out[k]),
{
    let p = choose|p: Seq<int>| #[trigger] is_permutation(p, inp.len() as int) && stable_sort_witness(out, inp, p);
    assert forall|i: int, j: int| 0 <= i < j < out.len() implies (#[trigger] out[i]).stargazers_count
        >= (#[trigger] out[j]).stargazers_count by {
        assert(!sorts_before(out[j], out[i]));
    }
    assert forall|i: int, j: int|
        0 <= i < j < out.len() && (#[trigger] out[i]).stargazers_count == (#[trigger] out[j]).stargazers_count
            implies !lex_lt(out[j].name@, out[i].name@) by {
        assert(!sorts_before(out[j], out[i]));
    }
    assert forall|k: int| 0 <= k < out.len() implies inp.contains(#[trigger] out[k]) by {
        assert(out[k] == inp[p[k]]);
    }
}

/// The first `max_repos` repositories in portfolio order: most stars first, then by name,
/// ties in the order given.
pub fn select_repos(repos: Vec<Repo>, max_repos: usize) -> (out: Vec<Repo>)
    ensures
        out@.len() == if repos@.len() > max_repos {
            max_repos as int
        } else {
            repos@.len() as int
        },
        forall|i: int, j: int|
            0 <= i < j < out@.len() ==> (#[trigger] out@[i]).stargazers_count >= (
            #[trigger] out@[j]).stargazers_count,
        forall|i: int, j: int|
            0 <= i < j < out@.len() && (#[trigger] out@[i]).stargazers_count == (
            #[trigger] out@[j]).stargazers_count ==> !lex_lt(out@[j].name@, out@[i].name@),
        forall|k: int| 0 <= k < out@.len() ==> repos@.contains(#[trigger] out@[k]),
        exists|sorted: Seq<Repo>|
            #[trigger] is_stable_sort_of(sorted, repos@) && out@ == sorted.take(
                if repos@.len() > max_repos {
                    max_repos as int
                } else {
                    repos@.len() as int
                },
            ),
{
    let ghost inp = repos@;
    let mut sorted = sort_repos(repos);
    let ghost full = sorted@;
    if sorted.len() > max_repos {
        sorted.truncate(max_repos);
    }
    assert(sorted@ =~= full.take(
        if inp.len() > max_repos {
            max_repos as int
        } else {
            inp.len() as int
        },
    ));
    proof {
        law_sorted_by_stars_then_name(full, inp);
        assert forall|k: int| 0 <= k < sorted@.len() implies inp.contains(#[trigger] sorted@[k]) by {
            assert(sorted@[k] == full[k]);
        }
        assert forall|i: int, j: int|
            0 <= i < j < sorted@.len() implies (#[trigger] sorted@[i]).stargazers_count >= (
            #[trigger] sorted@[j]).stargazers_count by {
            assert(sorted@[i] == full[i] && sorted@[j] == full[j]);
        }
        assert forall|i: int, j: int|
            0 <= i < j < sorted@.len() && (#[trigger] sorted@[i]).stargazers_count == (
            #[trigger] sorted@[j]).stargazers_count implies !lex_lt(sorted@[j].name@, sorted@[i].name@) by {
            assert(sorted@[i] == full[i] && sorted@[j] == full[j]);
        }
    }
    sorted
}

/// How many of `repos` are written in `lang`.
pub open spec fn lang_count(repos: Seq<Repo>, lang: Seq<char>) -> nat {
    repos.filter(|r: Repo| r.language@ == lang).len()
}

/// In the language list, `a` comes before `b`: more repositories first, then by name.
pub open spec fn lang_before(a: (String, u32), b: (String, u32)) -> bool {
    ||| a.1 > b.1
    ||| a.1 == b.1 && lex_lt(a.0@, b.0@)
}

proof fn lemma_lang_before_transitive(a: (String, u32), b: (String, u32), c: (String, u32))
    requires
        lang_before(a, b),
        lang_before(b, c),
    ensures
        lang_before(a, c),
{
    if a.1 == b.1 && b.1 == c.1 {
        lemma_lex_transitive(a.0@, b.0@, c.0@);
    }
}

proof fn lemma_lang_before_total(a: (String, u32), b: (String, u32))
    requires
        a.0@ != b.0@,
        !lang_before(a, b),
    ensures
        lang_before(b, a),
{
    lemma_lex_total(a.0@, b.0@);
}

proof fn lemma_lang_count_step(repos: Seq<Repo>, i: int, lang: Seq<char>)
    requires
        0 <= i < repos.len(),
    ensures
        lang_count(repos.take(i + 1), lang) == lang_count(repos.take(i), lang) + if repos[i].language@
            == lang {
            1int
        } else {
            0int
        },
{
    let f = |r: Repo| r.language@ == lang;
    let t = repos.take(i + 1);
    assert(t.drop_last() =~= repos.take(i));
    reveal_with_fuel(Seq::filter, 1);
    assert(t.filter(f) == if f(t.last()) {
        t.drop_last().filter(f).push(t.last())
    } else {
        t.drop_last().filter(f)
    });
}

/// The languages of `repos` with the number of repositories in each, most used first and
/// then by name; repositories without a language are not counted.
pub fn tally_languages(repos: &Vec<Repo>) -> (out: Vec<(String, u32)>)
    requires
        repos@.len() <= u32::MAX,
    ensures
        forall|k: int|
            0 <= k < out@.len() ==> {
                &&& (#[trigger] out@[k]).0@.len() > 0
                &&& out@[k].1 == lang_count(repos@, out@[k].0@)
                &&& out@[k].1 > 0
            },
        forall|i: int|
            0 <= i < repos@.len() && (#[trigger] repos@[i]).language@.len() > 0 ==> exists|k: int|
                0 <= k < out@.len() && (#[trigger] out@[k]).0@ == repos@[i].language@,
        forall|i: int, j: int| 0 <= i < j < out@.len() ==> lang_before(#[trigger] out@[i], #[trigger] out@[j]),
        forall|i: int, j: int| 0 <= i < j < out@.len() ==> (#[trigger] out@[i]).0@ != (#[trigger] out@[j]).0@,
        count_sum(out@) == with_language(repos@),
        forall|i: int, j: int| 0 <= i < j < out@.len() ==> (#[trigger] out@[i]).1 >= (#[trigger] out@[j]).1,
        forall|i: int, j: int|
            0 <= i < j < out@.len() && (#[trigger] out@[i]).1 == (#[trigger] out@[j]).1 ==> lex_lt(
                out@[i].0@,
                out@[j].0@,
            ),
        forall|i: int, k: int|
            0 <= i < repos@.len() && 0 <= k < out@.len() && (#[trigger] repos@[i]).language@.len() == 0
                ==> (#[trigger] out@[k]).0@ != repos@[i].language@,
{
    // Count each language, in the order of first appearance.
    let mut entries: Vec<(String, u32)> = Vec::new();
    let mut i: usize = 0;
    while i < repos.len()
        invariant
            i <= repos@.len(),
            repos@.len() <= u32::MAX,
            forall|k: int|
                0 <= k < entries@.len() ==> {
                    &&& (#[trigger] entries@[k]).0@.len() > 0
                    &&& entries@[k].1 == lang_count(repos@.take(i as int), entries@[k].0@)
                    &&& entries@[k].1 > 0
                },
            forall|a: int, b: int|
                0 <= a < b < entries@.len() ==> (#[trigger] entries@[a]).0@ != (#[trigger] entries@[b]).0@,
            forall|r: int|
                0 <= r < i && (#[trigger] repos@[r]).language@.len() > 0 ==> exists|k: int|
                    0 <= k < entries@.len() && (#[trigger] entries@[k]).0@ == repos@[r].language@,
        decreases repos@.len() - i,
    {
        let ghost prefix = repos@.take(i as int);
        proof {
            assert forall|l: Seq<char>| true implies lang_count(repos@.take(i + 1), l) == lang_count(
                prefix,
                l,
            ) + if repos@[i as int].language@ == l {
                1int
            } else {
                0int
            } by {
                lemma_lang_count_step(repos@, i as int, l);
            }
            assert forall|l: Seq<char>| true implies lang_count(prefix, l) <= i by {
                prefix.lemma_filter_len(|r: Repo| r.language@ == l);
            }
        }
        let lang = &repos[i].language;
        if !lang.as_str().is_empty() {
            let mut j: usize = 0;
            while j < entries.len() && !(entries[j].0 == *lang)
                invariant
                    j <= entries@.len(),
                    forall|k: int| 0 <= k < j ==> (#[trigger] entries@[k]).0@ != lang@,
                decreases entries@.len() - j,
            {
                j = j + 1;
            }
            let ghost old_entries = entries@;
            if j < entries.len() {
                let c = entries[j].1;
                let name = entries[j].0.clone();
                entries.set(j, (name, c + 1));
                proof {
                    assert forall|k: int| 0 <= k < entries@.len() implies {
                        &&& (#[trigger] entries@[k]).0@.len() > 0
                        &&& entries@[k].1 == lang_count(repos@.take(i + 1), entries@[k].0@)
                        &&& entries@[k].1 > 0
                    } by {
                        lemma_lang_count_step(repos@, i as int, entries@[k].0@);
                        if k != j {
                            assert(old_entries[k].0@ != old_entries[j as int].0@);
                        }
                    }
                    assert forall|r: int|
                        0 <= r < i + 1 && (#[trigger] repos@[r]).language@.len() > 0 implies exists|k: int|
                        0 <= k < entries@.len() && (#[trigger] entries@[k]).0@ == repos@[r].language@ by {
                        if r == i {
                            assert(entries@[j as int].0@ == repos@[r].language@);
                        } else {
                            let k = choose|k: int|
                                0 <= k < old_entries.len() && (#[trigger] old_entries[k]).0@
                                    == repos@[r].language@;
                            assert(entries@[k].0@ == old_entries[k].0@);
                        }
                    }
                }
            } else {
                entries.push((lang.clone(), 1));
                proof {
                    assert forall|k: int| 0 <= k < entries@.len() implies {
                        &&& (#[trigger] entries@[k]).0@.len() > 0
                        &&& entries@[k].1 == lang_count(repos@.take(i + 1), entries@[k].0@)
                        &&& entries@[k].1 > 0
                    } by {
                        lemma_lang_count_step(repos@, i as int, entries@[k].0@);
                        if k == j {
                            lemma_lang_count_absent(prefix, lang@);
                        }
                    }
                    assert forall|r: int|
                        0 <= r < i + 1 && (#[trigger] repos@[r]).language@.len() > 0 implies exists|k: int|
                        0 <= k < entries@.len() && (#[trigger] entries@[k]).0@ == repos@[r].language@ by {
                        if r == i {
                            assert(entries@[j as int].0@ == repos@[r].language@);
                        } else {
                            let k = choose|k: int|
                                0 <= k < old_entries.len() && (#[trigger] old_entries[k]).0@
                                    == repos@[r].language@;
                            assert(entries@[k].0@ == old_entries[k].0@);
                        }
                    }
                }
            }
        } else {
            proof {
                assert forall|k: int| 0 <= k < entries@.len() implies (#[trigger] entries@[k]).1
                    == lang_count(repos@.take(i + 1), entries@[k].0@) by {
                    lemma_lang_count_step(repos@, i as int, entries@[k].0@);
                }
            }
        }
        i = i + 1;
    }
    assert(repos@.take(repos@.len() as int) =~= repos@);
    let out = sort_tally(entries);
    assert forall|i: int, j: int| 0 <= i < j < out@.len() implies (#[trigger] out@[i]).0@ != (
    #[trigger] out@[j]).0@ by {
        assert(lang_before(out@[i], out@[j]));
        if out@[i].0@ == out@[j].0@ {
            lemma_lex_irreflexive(out@[i].0@);
        }
    }
    proof {
        law_tally_counts_each_repo_once(out@, repos@);
        assert forall|i: int, j: int| 0 <= i < j < out@.len() implies (#[trigger] out@[i]).1 >= (
        #[trigger] out@[j]).1 by {
            assert(lang_before(out@[i], out@[j]));
        }
        assert forall|i: int, j: int|
            0 <= i < j < out@.len() && (#[trigger] out@[i]).1 == (#[trigger] out@[j]).1 implies lex_lt(
            out@[i].0@,
            out@[j].0@,
        ) by {
            assert(lang_before(out@[i], out@[j]));
        }
    }
    out
}

/// A language that none of `repos` is written in has a count of zero, and every
/// language that one of them is written in is one of theirs.
proof fn lemma_lang_count_absent(repos: Seq<Repo>, lang: Seq<char>)
    requires
        forall|r: int| 0 <= r < repos.len() ==> (#[trigger] repos[r]).language@ != lang,
    ensures
        lang_count(repos, lang) == 0,
    decreases repos.len(),
{
    reveal_with_fuel(Seq::filter, 1);
    if repos.len() > 0 {
        lemma_lang_count_absent(repos.drop_last(), lang);
    }
}

/// How many of `repos` have a language at all.
pub open spec fn with_language(repos: Seq<Repo>) -> nat {
    repos.filter(|r: Repo| r.language@.len() > 0).len()
}

/// The sum of the counts of a language list.
pub open spec fn count_sum(langs: Seq<(String, u32)>) -> int
    decreases langs.len(),
{
    if langs.len() == 0 {
        0
    } else {
        count_sum(langs.drop_last()) + langs.last().1
    }
}

/// The sum of the counts in `repos` of the languages `names`.
spec fn lang_count_sum(names: Seq<Seq<char>>, repos: Seq<Repo>) -> int
    decreases names.len(),
{
    if names.len() == 0 {
        0
    } else {
        lang_count_sum(names.drop_last(), repos) + lang_count(repos, names.last())
    }
}

/// How often `x` occurs in `names`.
spec fn occurrences(names: Seq<Seq<char>>, x: Seq<char>) -> int
    decreases names.len(),
{
    if names.len() == 0 {
        0
    } else {
        occurrences(names.drop_last(), x) + if names.last() == x {
            1int
        } else {
            0int
        }
    }
}

proof fn lemma_occurrences(names: Seq<Seq<char>>, x: Seq<char>)
    requires
        forall|a: int, b: int| 0 <= a < b < names.len() ==> names[a] != names[b],
    ensures
        occurrences(names, x) == if names.contains(x) {
            1int
        } else {
            0int
        },
    decreases names.len(),
{
    if names.len() > 0 {
        let rest = names.drop_last();
        lemma_occurrences(rest, x);
        if names.last() == x {
            if rest.contains(x) {
                let i = choose|i: int| 0 <= i < rest.len() && rest[i] == x;
                assert(names[i] == names[names.len() - 1]);
            }
            assert(names.contains(x)) by {
                assert(names[names.len() - 1] == x);
            }
        } else {
            if names.contains(x) {
                let i = choose|i: int| 0 <= i < names.len() && names[i] == x;
                assert(rest[i] == x);
            }
            if rest.contains(x) {
                let i = choose|i: int| 0 <= i < rest.len() && rest[i] == x;
                assert(names[i] == x);
            }
        }
    }
}

proof fn lemma_lang_count_sum_last(names: Seq<Seq<char>>, repos: Seq<Repo>)
    requires
        repos.len() > 0,
    ensures
        lang_count_sum(names, repos) == lang_count_sum(names, repos.drop_last()) + occurrences(
            names,
            repos.last().language@,
        ),
    decreases names.len(),
{
    if names.len() > 0 {
        lemma_lang_count_sum_last(names.drop_last(), repos);
        let n = names.last();
        lemma_lang_count_step(repos, repos.len() - 1, n);
        assert(repos.take(repos.len() as int) =~= repos);
        assert(repos.take(repos.len() - 1) =~= repos.drop_last());
    }
}

/// Distinct, non-empty language names that cover every language of `repos` count each
/// repository with a language exactly once.
proof fn lemma_names_count_every_repo(names: Seq<Seq<char>>, repos: Seq<Repo>)
    requires
        forall|a: int, b: int| 0 <= a < b < names.len() ==> names[a] != names[b],
        forall|k: int| 0 <= k < names.len() ==> (#[trigger] names[k]).len() > 0,
        forall|i: int|
            0 <= i < repos.len() && (#[trigger] repos[i]).language@.len() > 0 ==> names.contains(
                repos[i].language@,
            ),
    ensures
        lang_count_sum(names, repos) == with_language(repos),
    decreases repos.len(),
{
    let f = |r: Repo| r.language@.len() > 0;
    if repos.len() == 0 {
        lemma_sum_of_nothing(names, repos);
        reveal_with_fuel(Seq::filter, 1);
    } else {
        let pre = repos.drop_last();
        let x = repos.last().language@;
        assert forall|i: int| 0 <= i < pre.len() && (#[trigger] pre[i]).language@.len() > 0 implies names.contains(
            pre[i].language@,
        ) by {
            assert(pre[i] == repos[i]);
        }
        lemma_names_count_every_repo(names, pre);
        lemma_lang_count_sum_last(names, repos);
        lemma_occurrences(names, x);
        reveal_with_fuel(Seq::filter, 1);
        if x.len() > 0 {
            assert(repos[repos.len() - 1].language@ == x);
            assert(names.contains(x));
        } else {
            if names.contains(x) {
                let k = choose|k: int| 0 <= k < names.len() && names[k] == x;
                assert(names[k].len() > 0);
            }
        }
    }
}

proof fn lemma_sum_of_nothing(names: Seq<Seq<char>>, repos: Seq<Repo>)
    requires
        repos.len() == 0,
    ensures
        lang_count_sum(names, repos) == 0,
    decreases names.len(),
{
    reveal_with_fuel(Seq::filter, 1);
    if names.len() > 0 {
        lemma_sum_of_nothing(names.drop_last(), repos);
    }
}

proof fn lemma_count_sum_is_lang_count_sum(out: Seq<(String, u32)>, repos: Seq<Repo>)
    requires
        forall|k: int| 0 <= k < out.len() ==> (#[trigger] out[k]).1 == lang_count(repos, out[k].0@),
    ensures
        count_sum(out) == lang_count_sum(out.map_values(|e: (String, u32)| e.0@), repos),
    decreases out.len(),
{
    if out.len() > 0 {
        let pre = out.drop_last();
        assert forall|k: int| 0 <= k < pre.len() implies (#[trigger] pre[k]).1 == lang_count(repos, pre[k].0@) by {
            assert(pre[k] == out[k]);
        }
        lemma_count_sum_is_lang_count_sum(pre, repos);
        assert(out.map_values(|e: (String, u32)| e.0@).drop_last() =~= pre.map_values(
            |e: (String, u32)| e.0@,
        ));
        assert(out[out.len() - 1].1 == lang_count(repos, out[out.len() - 1].0@));
    }
}

/// The language list counts every repository that has a language exactly once: its counts
/// add up to the number of such repositories.
pub proof fn law_tally_counts_each_repo_once(out: Seq<(String, u32)>, repos: Seq<Repo>)
    requires
        forall|k: int|
            0 <= k < out.len() ==> {
                &&& (#[trigger] out[k]).0@.len() > 0
                &&& out[k].1 == lang_count(repos, out[k].0@)
            },
        forall|i: int|
            0 <= i < repos.len() && (#[trigger] repos[i]).language@.len() > 0 ==> exists|k: int|
                0 <= k < out.len() && (#[trigger] out[k]).0@ == repos[i].language@,
        forall|i: int, j: int| 0 <= i < j < out.len() ==> (#[trigger] out[i]).0@ != (#[trigger] out[j]).0@,
    ensures
        count_sum(out) == with_language(repos),
{
    let names = out.map_values(|e: (String, u32)| e.0@);
    lemma_count_sum_is_lang_count_sum(out, repos);
    assert forall|i: int|
        0 <= i < repos.len() && (#[trigger] repos[i]).language@.len() > 0 implies names.contains(
        repos[i].language@,
    ) by {
        let k = choose|k: int| 0 <= k < out.len() && (#[trigger] out[k]).0@ == repos[i].language@;
        assert(names[k] == repos[i].language@);
    }
    assert forall|a: int, b: int| 0 <= a < b < names.len() implies names[a] != names[b] by {
        assert(names[a] == out[a].0@ && names[b] == out[b].0@);
    }
    assert forall|k: int| 0 <= k < names.len() implies (#[trigger] names[k]).len() > 0 by {
        assert(names[k] == out[k].0@);
    }
    lemma_names_count_every_repo(names, repos);
}

/// Orders language counts, most used first and then by name, for entries with distinct names.
fn sort_tally(entries: Vec<(String, u32)>) -> (out: Vec<(String, u32)>)
    requires
        forall|a: int, b: int|
            0 <= a < b < entries@.len() ==> (#[trigger] entries@[a]).0@ != (#[trigger] entries@[b]).0@,
    ensures
        forall|k: int| 0 <= k < out@.len() ==> entries@.contains(#[trigger] out@[k]),
        forall|k: int| 0 <= k < entries@.len() ==> out@.contains(#[trigger] entries@[k]),
        forall|i: int, j: int| 0 <= i < j < out@.len() ==> lang_before(#[trigger] out@[i], #[trigger] out@[j]),
{
    let ghost inp = entries@;
    let n = entries.len();
    let mut rest = entries;
    let mut out: Vec<(String, u32)> = Vec::new();
    let mut m: usize = 0;
    while rest.len() > 0
        invariant
            m <= n,
            inp.len() == n,
            rest@ == inp.skip(m as int),
            forall|a: int, b: int| 0 <= a < b < inp.len() ==> (#[trigger] inp[a]).0@ != (#[trigger] inp[b]).0@,
            forall|k: int| 0 <= k < out@.len() ==> inp.take(m as int).contains(#[trigger] out@[k]),
            forall|j: int| 0 <= j < m ==> out@.contains(#[trigger] inp[j]),
            forall|i: int, j: int| 0 <= i < j < out@.len() ==> lang_before(#[trigger] out@[i], #[trigger] out@[j]),
        decreases rest@.len(),
    {
        assert(m < n);
        let x = rest.remove(0);
        assert(x == inp[m as int]);
        let mut pos: usize = 0;
        while pos < out.len() && !(out[pos].1 < x.1 || (out[pos].1 == x.1 && str_lt(
            x.0.as_str(),
            out[pos].0.as_str(),
        )))
            invariant
                pos <= out@.len(),
                forall|k: int| 0 <= k < pos ==> !lang_before(x, #[trigger] out@[k]),
            decreases out@.len() - pos,
        {
            pos = pos + 1;
        }
        let ghost old_out = out@;
        proof {
            assert forall|k: int| 0 <= k < old_out.len() implies (#[trigger] old_out[k]).0@ != x.0@ by {
                assert(inp.take(m as int).contains(old_out[k]));
                let j = choose|j: int| 0 <= j < m && inp.take(m as int)[j] == old_out[k];
                assert(inp[j] == old_out[k]);
            }
            assert forall|k: int| 0 <= k < pos implies lang_before(#[trigger] old_out[k], x) by {
                lemma_lang_before_total(x, old_out[k]);
            }
            assert forall|k: int| pos <= k < old_out.len() implies lang_before(x, #[trigger] old_out[k]) by {
                if k > pos {
                    lemma_lang_before_transitive(x, old_out[pos as int], old_out[k]);
                }
            }
        }
        out.insert(pos, x);
        proof {
            assert forall|k: int| 0 <= k < out@.len() implies inp.take(m + 1).contains(#[trigger] out@[k]) by {
                let e = out@[k];
                if k == pos {
                    assert(inp.take(m + 1)[m as int] == e);
                } else {
                    if k < pos {
                        assert(e == old_out[k]);
                    } else {
                        assert(e == old_out[k - 1]);
                    }
                    assert(inp.take(m as int).contains(e));
                    let j = choose|j: int| 0 <= j < m && inp.take(m as int)[j] == e;
                    assert(inp.take(m + 1)[j] == e);
                }
            }
            assert forall|j: int| 0 <= j < m + 1 implies out@.contains(#[trigger] inp[j]) by {
                if j == m {
                    assert(out@[pos as int] == inp[j]);
                } else {
                    assert(old_out.contains(inp[j]));
                    let k = choose|k: int| 0 <= k < old_out.len() && old_out[k] == inp[j];
                    if k < pos {
                        assert(out@[k] == inp[j]);
                    } else {
                        assert(out@[k + 1] == inp[j]);
                    }
                }
            }
            assert forall|i: int, j: int| 0 <= i < j < out@.len() implies lang_before(
                #[trigger] out@[i],
                #[trigger] out@[j],
            ) by {
                if j < pos {
                    assert(out@[i] == old_out[i] && out@[j] == old_out[j]);
                } else if j == pos {
                    assert(out@[i] == old_out[i]);
                } else if i == pos {
                    assert(out@[j] == old_out[j - 1]);
                } else if i < pos {
                    assert(out@[i] == old_out[i] && out@[j] == old_out[j - 1]);
                } else {
                    assert(out@[i] == old_out[i - 1] && out@[j] == old_out[j - 1]);
                }
            }
            assert(inp.skip(m + 1) =~= inp.skip(m as int).remove(0));
        }
        m = m + 1;
    }
    assert(inp.take(m as int) =~= inp);
    out
}

/// `b` is `a` with its README scored: every other field is kept.
pub open spec fn scored_from(b: Repo, a: Repo) -> bool {
    &&& b.name == a.name
    &&& b.full_name == a.full_name
    &&& b.description == a.description
    &&& b.html_url == a.html_url
    &&& b.language == a.language
    &&& b.stargazers_count == a.stargazers_count
    &&& b.forks_count == a.forks_count
    &&& b.fork == a.fork
    &&& b.archived == a.archived
    &&& b.topics == a.topics
    &&& b.default_branch == a.default_branch
    &&& b.readme == a.readme
    &&& b.score@ == score_view(readme_signals(a.readme@))
}

/// Scores the README of each repository, keeping their order.
pub fn score_repos(repos: Vec<Repo>) -> (out: Vec<Repo>)
    ensures
        out@.len() == repos@.len(),
        forall|i: int| 0 <= i < out@.len() ==> scored_from(#[trigger] out@[i], repos@[i]),
        forall|i: int|
            0 <= i < out@.len() ==> (#[trigger] out@[i]).score@ == score_view(readme_signals(repos@[i].readme@)),
        forall|i: int|
            0 <= i < out@.len() ==> {
                &&& (#[trigger] out@[i]).name == repos@[i].name
                &&& out@[i].readme == repos@[i].readme
                &&& out@[i].language == repos@[i].language
                &&& out@[i].stargazers_count == repos@[i].stargazers_count
                &&& out@[i].forks_count == repos@[i].forks_count
                &&& out@[i].html_url == repos@[i].html_url
                &&& out@[i].description == repos@[i].description
            },
{
    let ghost inp = repos@;
    let n = repos.len();
    let mut rest = repos;
    let mut out: Vec<Repo> = Vec::new();
    while rest.len() > 0
        invariant
            out@.len() <= n,
            inp.len() == n,
            rest@ == inp.skip(out@.len() as int),
            forall|i: int| 0 <= i < out@.len() ==> scored_from(#[trigger] out@[i], inp[i]),
        decreases rest@.len(),
    {
        let ghost m = out@.len() as int;
        let mut r = rest.remove(0);
        assert(r == inp[m]);
        r.score = score_readme(r.readme.as_str());
        out.push(r);
        assert(inp.skip(m + 1) =~= inp.skip(m).remove(0));
    }
    out
}

} // verus!
