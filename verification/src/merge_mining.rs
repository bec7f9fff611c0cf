//! Secondary chains for merge mining.

use std::collections::HashMap;
use vstd::prelude::*;
use vstd::string::StrSliceExecFns;

verus! {

/// A chain merge-mined alongside Bitcoin.
#[derive(Clone, Debug)]
pub struct SecondaryChain {
    pub name: String,
    pub config: HashMap<String, String>,
}

pub struct SecondaryChainView {
    pub name: Seq<char>,
    pub config: Map<String, String>,
}

impl View for SecondaryChain {
    type V = SecondaryChainView;

    open spec fn view(&self) -> SecondaryChainView {
        SecondaryChainView { name: self.name@, config: self.config@ }
    }
}

/// Whether `c` has the Unicode property White_Space, which is what
/// `char::is_whitespace` and `str::trim` go by.
pub open spec fn is_white_space(c: char) -> bool {
    ||| '\u{9}' <= c <= '\u{d}'
    ||| c == ' '
    ||| c == '\u{85}'
    ||| c == '\u{a0}'
    ||| c == '\u{1680}'
    ||| '\u{2000}' <= c <= '\u{200a}'
    ||| c == '\u{2028}'
    ||| c == '\u{2029}'
    ||| c == '\u{202f}'
    ||| c == '\u{205f}'
    ||| c == '\u{3000}'
}

/// `s` without its leading white space.
pub open spec fn trim_start(s: Seq<char>) -> Seq<char>
    decreases s.len(),
{
    if s.len() > 0 && is_white_space(s[0]) {
        trim_start(s.subrange(1, s.len() as int))
    } else {
        s
    }
}

/// `s` without its trailing white space.
pub open spec fn trim_end(s: Seq<char>) -> Seq<char>
    decreases s.len(),
{
    if s.len() > 0 && is_white_space(s.last()) {
        trim_end(s.drop_last())
    } else {
        s
    }
}

/// `s` with leading and trailing white space removed.
pub open spec fn trimmed(s: Seq<char>) -> Seq<char> {
    trim_end(trim_start(s))
}

/// `str::trim`: `s` without its leading and trailing characters of the
/// Unicode property White_Space, as its documentation defines it.
#[verifier::external_body]
fn trim_str(s: &str) -> (res: &str)
    ensures
        res@ == trimmed(s@),
{
    s.trim()
}

/// Position of the first comma in `s`, or `-1`.
pub open spec fn first_comma(s: Seq<char>) -> int {
    if exists|i: int| 0 <= i < s.len() && s[i] == ',' {
        choose|i: int| 0 <= i < s.len() && s[i] == ',' && forall|j: int| 0 <= j < i ==> s[j] != ','
    } else {
        -1
    }
}

/// The pieces of `s` between commas, as `str::split(',')` gives them.
#[verifier::opaque]
pub open spec fn comma_pieces(s: Seq<char>) -> Seq<Seq<char>>
    decreases s.len(),
{
    let i = first_comma(s);
    if 0 <= i < s.len() {
        seq![s.subrange(0, i)] + comma_pieces(s.subrange(i + 1, s.len() as int))
    } else {
        seq![s]
    }
}

/// `names` without the empty ones.
pub open spec fn nonempty_names(names: Seq<Seq<char>>) -> Seq<Seq<char>>
    decreases names.len(),
{
    if names.len() == 0 {
        Seq::empty()
    } else {
        let rest = nonempty_names(names.drop_last());
        if names.last().len() == 0 {
            rest
        } else {
            rest.push(names.last())
        }
    }
}

/// The chain names a comma-separated list gives: each piece trimmed, empty
/// pieces dropped.
pub open spec fn chain_names(pieces: Seq<Seq<char>>) -> Seq<Seq<char>> {
    nonempty_names(pieces.map_values(|p: Seq<char>| trimmed(p)))
}

/// A chain of this name with an empty configuration.
pub open spec fn unconfigured(name: Seq<char>) -> SecondaryChainView {
    SecondaryChainView { name, config: Map::empty() }
}

/// The chains named in `names`, in order, each with an empty
/// configuration; empty names are skipped.
pub fn chains_named(names: &Vec<&str>) -> (res: Vec<SecondaryChain>)
    ensures
        res@.map_values(|c: SecondaryChain| c@) == nonempty_names(names@.map_values(|n: &str| n@)).map_values(
            |n: Seq<char>| unconfigured(n),
        ),
{
    let ghost nv = names@.map_values(|n: &str| n@);
    let mut out: Vec<SecondaryChain> = Vec::new();
    let mut k: usize = 0;
    while k < names.len()
        invariant
            k <= names@.len(),
            nv == names@.map_values(|n: &str| n@),
            out@.map_values(|c: SecondaryChain| c@) == nonempty_names(nv.subrange(0, k as int)).map_values(
                |n: Seq<char>| unconfigured(n),
            ),
        decreases names@.len() - k,
    {
        let name = names[k];
        let ghost before = out@.map_values(|c: SecondaryChain| c@);
        proof {
            assert(nv.subrange(0, k + 1).drop_last() =~= nv.subrange(0, k as int));
            assert(nv.subrange(0, k + 1).last() == name@);
        }
        if name.unicode_len() > 0 {
            let chain = SecondaryChain { name: name.to_owned(), config: HashMap::new() };
            out.push(chain);
            assert(out@.map_values(|c: SecondaryChain| c@) =~= before.push(chain@));
        }
        proof {
            assert(out@.map_values(|c: SecondaryChain| c@) =~= nonempty_names(nv.subrange(0, k + 1)).map_values(
                |n: Seq<char>| unconfigured(n),
            ));
        }
        k = k + 1;
    }
    assert(nv.subrange(0, nv.len() as int) =~= nv);
    out
}

proof fn lemma_first_comma(s: Seq<char>, k: int)
    requires
        0 <= k < s.len(),
        s[k] == ',',
        forall|j: int| 0 <= j < k ==> s[j] != ',',
    ensures
        first_comma(s) == k,
{
    let i = first_comma(s);
    assert(0 <= i < s.len() && s[i] == ',' && forall|j: int| 0 <= j < i ==> s[j] != ',') by {
        assert(exists|x: int| 0 <= x < s.len() && s[x] == ',' && forall|j: int| 0 <= j < x ==> s[j] != ',');
    }
    if i < k {
    } else if i > k {
        assert(s[k] != ',');
    }
}

/// Splitting at a first comma at `k`.
proof fn lemma_pieces_at(s: Seq<char>, k: int)
    requires
        0 <= k < s.len(),
        s[k] == ',',
        forall|j: int| 0 <= j < k ==> s[j] != ',',
    ensures
        comma_pieces(s) == seq![s.subrange(0, k)] + comma_pieces(s.subrange(k + 1, s.len() as int)),
{
    lemma_first_comma(s, k);
    reveal(comma_pieces);
}

/// A piece with no comma is its own split.
proof fn lemma_pieces_none(s: Seq<char>)
    requires
        forall|j: int| 0 <= j < s.len() ==> s[j] != ',',
    ensures
        comma_pieces(s) == seq![s],
{
    assert(first_comma(s) == -1);
    reveal(comma_pieces);
}

/// Splits `s` at its commas.
fn split_commas(s: &str) -> (res: Vec<&str>)
    ensures
        res@.map_values(|p: &str| p@) == comma_pieces(s@),
{
    let n = s.unicode_len();
    let ghost sv = s@;
    let mut pieces: Vec<&str> = Vec::new();
    let mut start: usize = 0;
    let mut i: usize = 0;
    assert(sv.subrange(0, n as int) =~= sv);
    while i < n
        invariant
            sv == s@,
            n == sv.len(),
            start <= i <= n,
            forall|j: int| start <= j < i ==> sv[j] != ',',
            pieces@.map_values(|p: &str| p@) + comma_pieces(sv.subrange(start as int, n as int))
                == comma_pieces(sv),
        decreases n - i,
    {
        if s.get_char(i) == ',' {
            let piece = s.substring_char(start, i);
            let ghost rest = sv.subrange(start as int, n as int);
            let ghost tail = sv.subrange(i + 1, n as int);
            proof {
                let k = (i - start) as int;
                assert forall|j: int| 0 <= j < k implies rest[j] != ',' by {
                    assert(rest[j] == sv[start + j]);
                }
                lemma_pieces_at(rest, k);
                assert(rest.subrange(0, k) =~= piece@);
                assert(rest.subrange(k + 1, rest.len() as int) =~= tail);
            }
            let ghost before = pieces@.map_values(|p: &str| p@);
            pieces.push(piece);
            proof {
                assert(pieces@.map_values(|p: &str| p@) =~= before.push(piece@));
                assert(before.push(piece@) + comma_pieces(tail) =~= before + (seq![piece@]
                    + comma_pieces(tail)));
            }
            start = i + 1;
        }
        i = i + 1;
    }
    let last = s.substring_char(start, n);
    let ghost rest = sv.subrange(start as int, n as int);
    proof {
        assert(rest =~= last@);
        assert forall|j: int| 0 <= j < rest.len() implies rest[j] != ',' by {
            assert(rest[j] == sv[start + j]);
        }
        lemma_pieces_none(rest);
    }
    let ghost before = pieces@.map_values(|p: &str| p@);
    pieces.push(last);
    assert(pieces@.map_values(|p: &str| p@) =~= before + seq![last@]);
    pieces
}

/// The coordinator of merge mining: the secondary chains.
pub struct MergeMiningCoordinator {
    secondary_chains: Vec<SecondaryChain>,
}

impl MergeMiningCoordinator {
    pub closed spec fn chains(&self) -> Seq<SecondaryChainView> {
        self.secondary_chains@.map_values(|c: SecondaryChain| c@)
    }

    /// A coordinator for the chains kept in storage, `stored`; when there
    /// are none, for the chains named in the comma-separated `configured`
    /// list, each with an empty configuration.
    pub fn new(stored: Option<Vec<SecondaryChain>>, configured: Option<&str>) -> (res: Self)
        ensures
            match stored {
                Some(v) if v@.len() > 0 => res.chains() == v@.map_values(|c: SecondaryChain| c@),
                _ => match configured {
                    Some(text) => res.chains() == chain_names(comma_pieces(text@)).map_values(
                        |n: Seq<char>| unconfigured(n),
                    ),
                    None => res.chains() == Seq::<SecondaryChainView>::empty(),
                },
            },
    {
        let mut secondary_chains: Vec<SecondaryChain> = match stored {
            Some(v) => v,
            None => Vec::new(),
        };
        if secondary_chains.len() == 0 {
            if let Some(text) = configured {
                let pieces = split_commas(text);
                let ghost pv = pieces@.map_values(|p: &str| p@);
                let mut names: Vec<&str> = Vec::new();
                let mut k: usize = 0;
                while k < pieces.len()
                    invariant
                        k <= pieces@.len(),
                        pv == pieces@.map_values(|p: &str| p@),
                        names@.map_values(|n: &str| n@) == pv.subrange(0, k as int).map_values(
                            |p: Seq<char>| trimmed(p),
                        ),
                    decreases pieces@.len() - k,
                {
                    let ghost before = names@.map_values(|n: &str| n@);
                    let name = trim_str(pieces[k]);
                    names.push(name);
                    assert(names@.map_values(|n: &str| n@) =~= before.push(trimmed(pv[k as int])));
                    assert(pv.subrange(0, k + 1).map_values(|p: Seq<char>| trimmed(p))
                        =~= pv.subrange(0, k as int).map_values(|p: Seq<char>| trimmed(p)).push(
                        trimmed(pv[k as int]),
                    ));
                    k = k + 1;
                }
                assert(pv.subrange(0, pv.len() as int) =~= pv);
                secondary_chains = chains_named(&names);
            }
        }
        let res = MergeMiningCoordinator { secondary_chains };
        res
    }

    /// The secondary chains.
    pub fn get_secondary_chains(&self) -> (res: &[SecondaryChain])
        ensures
            res@.map_values(|c: SecondaryChain| c@) == self.chains(),
    {
        self.secondary_chains.as_slice()
    }

    /// Adds a secondary chain at the end.
    pub fn add_secondary_chain(&mut self, chain: SecondaryChain)
        ensures
            final(self).chains() == old(self).chains().push(chain@),
    {
        self.secondary_chains.push(chain);
        assert(self.chains() =~= old(self).chains().push(chain@));
    }
}

} // verus!
