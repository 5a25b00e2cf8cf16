//! Ranked statistics over per-function lines of code.
use vstd::prelude::*;

use crate::stats::Scored;
use crate::stats::score_sum;
use crate::stats::score_sum_exec;
use crate::stats::sort_by_score_desc;
use crate::stats::sorted_desc;
use crate::stats::stable_sort_desc;
use crate::stats::lemma_stable_sort_of_sorted;
use crate::stats::lemma_stable_sort_sorted;
use crate::stats::lemma_stable_sort_permutes;

verus! {

/// One analyzed function with its line count.
pub struct LocFunction {
    func_name: String,
    func_file: String,
    loc: usize,
}

impl LocFunction {
    /// The analyzed function's name.
    pub closed spec fn name_spec(&self) -> Seq<char> {
        self.func_name@
    }

    /// The file the function was found in.
    pub closed spec fn file_spec(&self) -> Seq<char> {
        self.func_file@
    }

    /// The line-count score.
    pub closed spec fn loc_spec(&self) -> usize {
        self.loc
    }

    pub fn new(func_name: String, func_file: String, loc: usize) -> (r: Self)
        ensures
            r.name_spec() == func_name@,
            r.file_spec() == func_file@,
            r.loc_spec() == loc,
    {
        LocFunction { func_name, func_file, loc }
    }

    pub fn name(&self) -> (r: &str)
        ensures
            r@ == self.name_spec(),
    {
        self.func_name.as_str()
    }

    pub fn file(&self) -> (r: &str)
        ensures
            r@ == self.file_spec(),
    {
        self.func_file.as_str()
    }

    pub fn loc(&self) -> (r: usize)
        ensures
            r == self.loc_spec(),
    {
        self.loc
    }
}

impl Scored for LocFunction {
    open spec fn score_spec(&self) -> usize {
        self.loc_spec()
    }

    fn score(&self) -> (r: usize) {
        self.loc
    }
}

/// The per-function line-count ranking: records in insertion order until a query
/// sorts them, with a cache flag so repeated queries sort only once.
pub struct LocStats {
    functions: Vec<LocFunction>,
    is_sorted: bool,
}

impl LocStats {
    /// The records, in their current order.
    pub closed spec fn records(&self) -> Seq<LocFunction> {
        self.functions@
    }

    /// Whether the sort cache is valid.
    pub closed spec fn sorted_flag(&self) -> bool {
        self.is_sorted
    }

    /// The cache is sound: when the flag stands, the records are in
    /// descending score order.
    pub open spec fn inv(&self) -> bool {
        self.sorted_flag() ==> sorted_desc(self.records())
    }

    pub fn new() -> (r: Self)
        ensures
            r.records() == Seq::<LocFunction>::empty(),
            r.inv(),
            !r.sorted_flag(),
    {
        LocStats { functions: Vec::new(), is_sorted: false }
    }

    /// Appends one record and invalidates the sort cache.
    pub fn add_func(&mut self, func: LocFunction)
        ensures
            final(self).records() == old(self).records().push(func),
            final(self).inv(),
            !final(self).sorted_flag(),
    {
        self.functions.push(func);
        self.is_sorted = false;
    }

    /// Appends many records and invalidates the sort cache.
    pub fn add_funcs(&mut self, funcs: Vec<LocFunction>)
        ensures
            final(self).records() == old(self).records() + funcs@,
            final(self).inv(),
            !final(self).sorted_flag(),
    {
        let mut rest = funcs;
        self.functions.append(&mut rest);
        self.is_sorted = false;
    }

    /// Sorts the records descending by score, stably: equal scores keep
    /// their insertion order.
    pub fn sort(&mut self)
        ensures
            final(self).records() == stable_sort_desc(old(self).records()),
            final(self).sorted_flag(),
            final(self).inv(),
    {
        sort_by_score_desc(&mut self.functions);
        self.is_sorted = true;
        proof {
            lemma_stable_sort_sorted(old(self).records());
        }
    }

    /// The highest-scoring record; on ties, the earliest inserted.
    /// `None` exactly when there are no records.
    pub fn max(&mut self) -> (r: Option<&LocFunction>)
        requires
            old(self).inv(),
        ensures
            final(self).records() == stable_sort_desc(old(self).records()),
            final(self).inv(),
            old(self).records().len() > 0 ==> final(self).sorted_flag(),
            old(self).records().len() == 0 ==> final(self).sorted_flag() == old(
                self,
            ).sorted_flag(),
            old(self).records().len() == 0 ==> r is None,
            old(self).records().len() > 0 ==> (match r {
                Some(f) => *f == stable_sort_desc(old(self).records())[0],
                None => false,
            }),
    {
        if self.functions.len() == 0 {
            proof {
                assert(stable_sort_desc(old(self).records()) =~= old(self).records());
            }
            return None;
        }
        if !self.is_sorted {
            self.sort();
        } else {
            proof {
                lemma_stable_sort_of_sorted(old(self).records());
            }
        }
        proof {
            lemma_stable_sort_permutes(old(self).records());
        }
        Some(&self.functions[0])
    }

    /// The lowest-scoring record; on ties, the latest inserted.
    /// `None` exactly when there are no records.
    pub fn min(&mut self) -> (r: Option<&LocFunction>)
        requires
            old(self).inv(),
        ensures
            final(self).records() == stable_sort_desc(old(self).records()),
            final(self).inv(),
            old(self).records().len() > 0 ==> final(self).sorted_flag(),
            old(self).records().len() == 0 ==> final(self).sorted_flag() == old(
                self,
            ).sorted_flag(),
            old(self).records().len() == 0 ==> r is None,
            old(self).records().len() > 0 ==> (match r {
                Some(f) => *f == stable_sort_desc(old(self).records()).last(),
                None => false,
            }),
    {
        if self.functions.len() == 0 {
            proof {
                assert(stable_sort_desc(old(self).records()) =~= old(self).records());
            }
            return None;
        }
        if !self.is_sorted {
            self.sort();
        } else {
            proof {
                lemma_stable_sort_of_sorted(old(self).records());
            }
        }
        proof {
            lemma_stable_sort_permutes(old(self).records());
        }
        Some(&self.functions[self.functions.len() - 1])
    }

    /// The `min(k, n)` highest-scoring records in descending order;
    /// a `k` beyond the record count returns them all.
    pub fn topk(&mut self, k: usize) -> (r: &[LocFunction])
        requires
            old(self).inv(),
        ensures
            final(self).records() == stable_sort_desc(old(self).records()),
            final(self).inv(),
            final(self).sorted_flag(),
            r@ == stable_sort_desc(old(self).records()).subrange(
                0,
                if k <= old(self).records().len() {
                    k as int
                } else {
                    old(self).records().len() as int
                },
            ),
    {
        if !self.is_sorted {
            self.sort();
        } else {
            proof {
                lemma_stable_sort_of_sorted(old(self).records());
            }
        }
        proof {
            lemma_stable_sort_permutes(old(self).records());
        }
        let len = self.functions.len();
        let k2 = if k >= len {
            len
        } else {
            k
        };
        let s = self.functions.as_slice();
        vstd::slice::slice_subrange(s, 0, k2)
    }

    /// How many records were added.
    pub fn len(&self) -> (r: usize)
        ensures
            r == self.records().len(),
    {
        self.functions.len()
    }

    /// The sum of all scores, from which a mean is computed.
    pub fn score_total(&self) -> (r: u128)
        ensures
            r as int == score_sum(self.records()),
    {
        score_sum_exec(&self.functions)
    }
}

} // verus!
