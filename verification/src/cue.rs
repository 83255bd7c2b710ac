//! The CUE-sheet data model: a document (`Cue`) of discs, each disc a
//! `FILE` declaration with its tracks, each track carrying its metadata
//! and a single start offset in milliseconds.

pub mod error;
pub mod laws;
pub mod parser;

use vstd::prelude::*;

verus! {

// ---------------------------------------------------------------------------
// Comment maps
// ---------------------------------------------------------------------------

/// The character sequences of a vector of string pairs.
pub open spec fn pairs_view(s: Seq<(String, String)>) -> Seq<(Seq<char>, Seq<char>)> {
    s.map_values(|p: (String, String)| (p.0@, p.1@))
}

/// The map a sequence of key/value pairs denotes when inserted in order:
/// the last write to a key wins.
pub open spec fn entries_map(s: Seq<(Seq<char>, Seq<char>)>) -> Map<Seq<char>, Seq<char>>
    decreases s.len(),
{
    if s.len() == 0 {
        Map::empty()
    } else {
        entries_map(s.drop_last()).insert(s.last().0, s.last().1)
    }
}

/// No two pairs share a key.
pub open spec fn unique_keys(s: Seq<(Seq<char>, Seq<char>)>) -> bool {
    forall|i: int, j: int| 0 <= i < j < s.len() ==> s[i].0 != s[j].0
}

proof fn lemma_entries_map_update(s: Seq<(Seq<char>, Seq<char>)>, i: int, k: Seq<char>, v: Seq<char>)
    requires
        unique_keys(s),
        0 <= i < s.len(),
        s[i].0 == k,
    ensures
        entries_map(s.update(i, (k, v))) == entries_map(s).insert(k, v),
    decreases s.len(),
{
    let t = s.update(i, (k, v));
    if i == s.len() - 1 {
        assert(t.drop_last() =~= s.drop_last());
        assert(entries_map(s.drop_last()).insert(k, s.last().1).insert(k, v) =~= entries_map(
            s.drop_last(),
        ).insert(k, v));
    } else {
        let s2 = s.drop_last();
        assert(unique_keys(s2));
        assert(s2[i].0 == k);
        lemma_entries_map_update(s2, i, k, v);
        assert(t.drop_last() =~= s2.update(i, (k, v)));
        assert(t.last() == s.last());
        // the key updated at `i` differs from the last pair's key
        assert(s.last().0 != k);
        assert(entries_map(s2).insert(k, v).insert(s.last().0, s.last().1) =~= entries_map(
            s2,
        ).insert(s.last().0, s.last().1).insert(k, v));
    }
}

proof fn lemma_entries_map_get(s: Seq<(Seq<char>, Seq<char>)>, k: Seq<char>)
    requires
        unique_keys(s),
    ensures
        entries_map(s).contains_key(k) <==> exists|i: int|
            0 <= i < s.len() && (#[trigger] s[i]).0 == k,
        forall|i: int|
            0 <= i < s.len() && (#[trigger] s[i]).0 == k ==> entries_map(s)[k] == s[i].1,
    decreases s.len(),
{
    if s.len() > 0 {
        let s2 = s.drop_last();
        assert(unique_keys(s2));
        lemma_entries_map_get(s2, k);
        if s.last().0 == k {
            assert((s[s.len() - 1]).0 == k);
        } else {
            if exists|i: int| 0 <= i < s.len() && (#[trigger] s[i]).0 == k {
                let i = choose|i: int| 0 <= i < s.len() && (#[trigger] s[i]).0 == k;
                assert(s2[i].0 == k);
            }
            if entries_map(s).contains_key(k) {
                let i = choose|i: int| 0 <= i < s2.len() && (#[trigger] s2[i]).0 == k;
                assert(s[i].0 == k);
            }
        }
        assert forall|i: int|
            0 <= i < s.len() && (#[trigger] s[i]).0 == k implies entries_map(s)[k] == s[i].1 by {
            if i < s.len() - 1 {
                assert(s2[i].0 == k);
                assert(s.last().0 != k);
            }
        }
    }
}

/// A comment map: keys unique, the later of two writes to one key wins,
/// order irrelevant.
#[derive(Debug)]
pub struct Rems {
    entries: Vec<(String, String)>,
}

impl View for Rems {
    type V = Map<Seq<char>, Seq<char>>;

    closed spec fn view(&self) -> Map<Seq<char>, Seq<char>> {
        entries_map(pairs_view(self.entries@))
    }
}

impl Rems {
    #[verifier::type_invariant]
    closed spec fn wf(self) -> bool {
        unique_keys(pairs_view(self.entries@))
    }

    pub fn new() -> (r: Self)
        ensures
            r@ == Map::<Seq<char>, Seq<char>>::empty(),
    {
        Rems { entries: Vec::new() }
    }

    /// Records `v` under `k`, overwriting any earlier value for `k`.
    pub fn insert(&mut self, k: String, v: String)
        ensures
            final(self)@ == old(self)@.insert(k@, v@),
    {
        proof {
            use_type_invariant(&*self);
        }
        let ghost s0 = pairs_view(self.entries@);
        let n = self.entries.len();
        let mut idx: usize = n;
        let mut i: usize = 0;
        while i < n && idx == n
            invariant
                0 <= i <= n == self.entries@.len(),
                s0 == pairs_view(self.entries@),
                idx <= n,
                idx == n ==> forall|j: int| 0 <= j < i ==> s0[j].0 != k@,
                idx < n ==> s0[idx as int].0 == k@,
            decreases n - i, (if idx == n {
                1int
            } else {
                0int
            }),
        {
            if self.entries[i].0 == k {
                idx = i;
            } else {
                i = i + 1;
            }
        }
        let ghost target = if idx < n {
            s0.update(idx as int, (k@, v@))
        } else {
            s0
        };
        let mut out: Vec<(String, String)> = Vec::new();
        let mut j: usize = 0;
        while j < n
            invariant
                0 <= j <= n == self.entries@.len(),
                s0 == pairs_view(self.entries@),
                idx < n ==> s0[idx as int].0 == k@,
                idx == n ==> forall|j2: int| 0 <= j2 < n ==> s0[j2].0 != k@,
                target == (if idx < n {
                    s0.update(idx as int, (k@, v@))
                } else {
                    s0
                }),
                pairs_view(out@) == target.take(j as int),
            decreases n - j,
        {
            let ghost prev = pairs_view(out@);
            if j == idx {
                out.push((k.clone(), v.clone()));
            } else {
                let p0 = self.entries[j].0.clone();
                let p1 = self.entries[j].1.clone();
                out.push((p0, p1));
            }
            proof {
                assert(pairs_view(out@) =~= prev.push(target[j as int]));
                assert(prev.push(target[j as int]) =~= target.take(j + 1 as int));
            }
            j = j + 1;
        }
        proof {
            assert(target.take(n as int) =~= target);
        }
        if idx == n {
            let ghost prev = pairs_view(out@);
            out.push((k, v));
            proof {
                assert(pairs_view(out@) =~= prev.push((k@, v@)));
                assert(pairs_view(out@).drop_last() =~= target);
            }
        }
        self.entries = out;
        proof {
            if idx < n {
                lemma_entries_map_update(s0, idx as int, k@, v@);
                assert forall|a: int, b: int|
                    0 <= a < b < target.len() implies target[a].0 != target[b].0 by {
                    assert(target[a].0 == s0[a].0);
                    assert(target[b].0 == s0[b].0);
                }
            } else {
                let t2 = pairs_view(self.entries@);
                assert forall|a: int, b: int| 0 <= a < b < t2.len() implies t2[a].0 != t2[b].0 by {
                    if b < n {
                        assert(t2[a].0 == s0[a].0 && t2[b].0 == s0[b].0);
                    } else {
                        assert(t2[a].0 == s0[a].0 && t2[b].0 == k@);
                    }
                }
            }
        }
    }

    /// The value recorded under `k`, if any.
    #[verifier::loop_isolation(false)]
    pub fn get(&self, k: &str) -> (r: Option<&String>)
        ensures
            match r {
                Some(v) => self@.contains_key(k@) && self@[k@] == v@,
                None => !self@.contains_key(k@),
            },
    {
        proof {
            use_type_invariant(self);
            lemma_entries_map_get(pairs_view(self.entries@), k@);
        }
        let kc = crate::text::chars_of_str(k);
        let mut i: usize = 0;
        while i < self.entries.len()
            invariant
                0 <= i <= self.entries@.len(),
                kc@ == k@,
                unique_keys(pairs_view(self.entries@)),
                self@ == entries_map(pairs_view(self.entries@)),
                forall|j: int| 0 <= j < i ==> (#[trigger] pairs_view(self.entries@)[j]).0 != k@,
            decreases self.entries@.len() - i,
        {
            let ec = crate::text::chars_of_str(self.entries[i].0.as_str());
            if crate::text::vec_char_eq(&ec, &kc) {
                proof {
                    assert((pairs_view(self.entries@)[i as int]).0 == k@);
                }
                return Some(&self.entries[i].1);
            }
            i = i + 1;
        }
        None
    }

    /// The recorded pairs, in insertion order.
    pub fn entries(&self) -> (r: &Vec<(String, String)>)
        ensures
            entries_map(pairs_view(r@)) == self@,
            unique_keys(pairs_view(r@)),
    {
        proof {
            use_type_invariant(self);
        }
        &self.entries
    }
}

// ---------------------------------------------------------------------------
// The document model
// ---------------------------------------------------------------------------

/// One track: its declared number, optional metadata, its comment map,
/// and its single start offset in milliseconds.
#[derive(Debug)]
pub struct Track {
    pub number: u32,
    pub title: Option<String>,
    pub performer: Option<String>,
    pub songwriter: Option<String>,
    pub isrc: Option<String>,
    pub index: u64,
    pub rems: Rems,
}

/// One `FILE` declaration and everything scoped under it.
#[derive(Debug)]
pub struct Disc {
    pub rems: Rems,
    pub catalog: Option<String>,
    pub performer: Option<String>,
    pub songwriter: Option<String>,
    pub title: Option<String>,
    pub file: String,
    pub tracks: Vec<Track>,
}

/// The root result of a parse.
#[derive(Debug)]
pub struct Cue {
    pub rems: Rems,
    pub title: Option<String>,
    pub performer: Option<String>,
    pub songwriter: Option<String>,
    pub catalog: Option<String>,
    pub discs: Vec<Disc>,
}

pub open spec fn opt_view(o: Option<String>) -> Option<Seq<char>> {
    match o {
        Some(s) => Some(s@),
        None => None,
    }
}

/// Mathematical counterpart of `Track`.
pub struct TrackV {
    pub number: u32,
    pub title: Option<Seq<char>>,
    pub performer: Option<Seq<char>>,
    pub songwriter: Option<Seq<char>>,
    pub isrc: Option<Seq<char>>,
    pub index: u64,
    pub rems: Map<Seq<char>, Seq<char>>,
}

/// Mathematical counterpart of `Disc`.
pub struct DiscV {
    pub rems: Map<Seq<char>, Seq<char>>,
    pub catalog: Option<Seq<char>>,
    pub performer: Option<Seq<char>>,
    pub songwriter: Option<Seq<char>>,
    pub title: Option<Seq<char>>,
    pub file: Seq<char>,
    pub tracks: Seq<TrackV>,
}

/// Mathematical counterpart of `Cue`.
pub struct CueV {
    pub rems: Map<Seq<char>, Seq<char>>,
    pub title: Option<Seq<char>>,
    pub performer: Option<Seq<char>>,
    pub songwriter: Option<Seq<char>>,
    pub catalog: Option<Seq<char>>,
    pub discs: Seq<DiscV>,
}

impl View for Track {
    type V = TrackV;

    open spec fn view(&self) -> TrackV {
        TrackV {
            number: self.number,
            title: opt_view(self.title),
            performer: opt_view(self.performer),
            songwriter: opt_view(self.songwriter),
            isrc: opt_view(self.isrc),
            index: self.index,
            rems: self.rems@,
        }
    }
}

impl View for Disc {
    type V = DiscV;

    open spec fn view(&self) -> DiscV {
        DiscV {
            rems: self.rems@,
            catalog: opt_view(self.catalog),
            performer: opt_view(self.performer),
            songwriter: opt_view(self.songwriter),
            title: opt_view(self.title),
            file: self.file@,
            tracks: self.tracks@.map_values(|t: Track| t@),
        }
    }
}

impl View for Cue {
    type V = CueV;

    open spec fn view(&self) -> CueV {
        CueV {
            rems: self.rems@,
            title: opt_view(self.title),
            performer: opt_view(self.performer),
            songwriter: opt_view(self.songwriter),
            catalog: opt_view(self.catalog),
            discs: self.discs@.map_values(|d: Disc| d@),
        }
    }
}

/// Parses a whole CUE sheet, handed over as already-decoded text.  On
/// failure the error carries the 0-based index of the line at which the
/// fault was detected, and its message.
pub fn parse(cuesheet: &str) -> (r: Result<Cue, error::Error>)
    ensures
        match r {
            Ok(c) => parser::spec_parse(crate::text::spec_lines(cuesheet@)) matches Ok(cv) && c@
                == cv,
            Err(e) => parser::spec_parse(crate::text::spec_lines(cuesheet@)) matches Err(ev) && ev
                == e@,
        },
{
    let chars = crate::text::chars_of_str(cuesheet);
    let lines = crate::text::split_lines(&chars);
    parser::Parser::new(lines).parse()
}

} // verus!
