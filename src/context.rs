//! Where a repository's log and derived files live.

use vstd::prelude::*;
use vstd::string::{StrSliceExecFns, StringExecFns};
use crate::text::{lemma_text_lt_total, lemma_text_lt_transitive, text_is, text_less, text_lt, texts_view};

verus! {

/// The locations of one repository: its root, the directory of daily logs
/// and the directory of monthly rollups.
#[derive(Clone, Debug)]
pub struct FabricContext {
    pub root: String,
    pub events_dir: String,
    pub archive_dir: String,
}

impl FabricContext {
    /// The context rooted at `root`, with `events` and `archive` beneath it.
    pub fn at(root: &str) -> (r: FabricContext)
        ensures
            r.root@ == root@,
            r.events_dir@ == root@ + "/events"@,
            r.archive_dir@ == root@ + "/archive"@,
    {
        FabricContext {
            root: root.to_owned(),
            events_dir: root.to_owned().concat("/events"),
            archive_dir: root.to_owned().concat("/archive"),
        }
    }

    /// The cached index, beneath the root.
    pub fn index_path(&self) -> (r: String)
        ensures
            r@ == self.root@ + "/.index.json"@,
    {
        self.root.clone().concat("/.index.json")
    }

    /// The cached state, beneath the root.
    pub fn state_path(&self) -> (r: String)
        ensures
            r@ == self.root@ + "/.state.json"@,
    {
        self.root.clone().concat("/.state.json")
    }
}

/// Whether a file name is that of a log: a stem, then `.jsonl`.
pub open spec fn is_log_name(n: Seq<char>) -> bool {
    n.len() > 6 && n.skip(n.len() - 6) == ".jsonl"@
}

/// Whether a file name is that of a log: a stem, then `.jsonl`.
pub fn log_name(n: &str) -> (r: bool)
    ensures
        r == is_log_name(n@),
{
    let len = n.unicode_len();
    if len <= 6 {
        return false;
    }
    let tail = n.substring_char(len - 6, len);
    proof {
        assert(tail@ =~= n@.skip(len - 6));
    }
    text_is(tail, ".jsonl")
}

/// The log names among the entries of a directory, each once, in ascending
/// name order, which for date-stamped names is chronological order.
pub fn log_names(entries: &Vec<String>) -> (r: Vec<String>)
    ensures
        forall|a: int, b: int| 0 <= a < b < r.len() ==> text_lt(texts_view(r)[a], texts_view(r)[b]),
        forall|a: int| 0 <= a < r.len() ==> is_log_name(#[trigger] texts_view(r)[a]) && texts_view(*entries).contains(texts_view(r)[a]),
        forall|i: int| 0 <= i < entries.len() && is_log_name(#[trigger] texts_view(*entries)[i]) ==> texts_view(r).contains(texts_view(*entries)[i]),
{
    let ghost ev = texts_view(*entries);
    let mut out: Vec<String> = Vec::new();
    let mut i: usize = 0;
    while i < entries.len()
        invariant
            i <= entries.len(),
            ev == texts_view(*entries),
            forall|a: int, b: int| 0 <= a < b < out.len() ==> text_lt(texts_view(out)[a], texts_view(out)[b]),
            forall|a: int| 0 <= a < out.len() ==> is_log_name(#[trigger] texts_view(out)[a]) && ev.contains(texts_view(out)[a]),
            forall|j: int| 0 <= j < i && is_log_name(#[trigger] ev[j]) ==> texts_view(out).contains(ev[j]),
        decreases entries.len() - i,
    {
        let c = &entries[i];
        assert(ev[i as int] == c@);
        if log_name(c.as_str()) {
            let mut p: usize = 0;
            let mut stop = false;
            let mut dup = false;
            while p < out.len() && !stop
                invariant
                    p <= out.len(),
                    forall|k: int| 0 <= k < p ==> text_lt(texts_view(out)[k], c@),
                    stop ==> p < out.len() && (dup ==> texts_view(out)[p as int] == c@) && (!dup ==> text_lt(c@, texts_view(out)[p as int])),
                    !stop ==> !dup,
                decreases out.len() - p, if stop { 0int } else { 1int },
            {
                if text_is(out[p].as_str(), c.as_str()) {
                    stop = true;
                    dup = true;
                } else if text_less(c.as_str(), out[p].as_str()) {
                    stop = true;
                } else {
                    proof {
                        lemma_text_lt_total(texts_view(out)[p as int], c@);
                    }
                    p = p + 1;
                }
            }
            if !dup {
                let ghost prev = texts_view(out);
                out.insert(p, c.clone());
                proof {
                    assert(texts_view(out) =~= prev.insert(p as int, c@));
                    assert forall|a: int, b: int| 0 <= a < b < out.len() implies text_lt(
                        texts_view(out)[a],
                        texts_view(out)[b],
                    ) by {
                        if a < p && b == p {
                        } else if a == p && b > p {
                            if b - 1 > p {
                                lemma_text_lt_transitive(c@, prev[p as int], prev[b - 1]);
                            }
                        } else if a < p && b > p {
                            assert(texts_view(out)[b] == prev[b - 1]);
                        } else if a > p {
                            assert(texts_view(out)[a] == prev[a - 1]);
                        }
                    }
                    assert forall|j: int| 0 <= j < i + 1 && is_log_name(#[trigger] ev[j]) implies texts_view(out).contains(ev[j]) by {
                        if j < i {
                            let w = choose|w: int| 0 <= w < prev.len() && prev[w] == ev[j];
                            if w < p {
                                assert(texts_view(out)[w] == ev[j]);
                            } else {
                                assert(texts_view(out)[w + 1] == ev[j]);
                            }
                        } else {
                            assert(texts_view(out)[p as int] == ev[j]);
                        }
                    }
                    assert forall|a: int| 0 <= a < out.len() implies is_log_name(#[trigger] texts_view(out)[a]) && ev.contains(texts_view(out)[a]) by {
                        if a < p {
                        } else if a == p {
                            assert(ev[i as int] == c@);
                        } else {
                            assert(texts_view(out)[a] == prev[a - 1]);
                        }
                    }
                }
            } else {
                proof {
                    assert forall|j: int| 0 <= j < i + 1 && is_log_name(#[trigger] ev[j]) implies texts_view(out).contains(ev[j]) by {
                        if j == i {
                            assert(texts_view(out)[p as int] == ev[j]);
                        }
                    }
                }
            }
        }
        i = i + 1;
    }
    out
}

} // verus!
