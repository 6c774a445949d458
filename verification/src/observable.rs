//! Discrete market paths: a common time grid and, for each underlying, its
//! spot prices on that grid. Times and prices are binary64 bit patterns; the
//! evaluation of observables on a path is numerical and lives outside this
//! crate's verified part.
use vstd::prelude::*;

use crate::ast::{bits_eq, bits_equal};
use crate::error::KontractError;
use crate::order::{compare_names, Cmp};
use vstd::std_specs::cmp::PartialEqSpecImpl;

verus! {

/// A discrete market path shared by all underlyings.
#[derive(Debug)]
pub struct Path {
    /// Time grid (years).
    times: Vec<u64>,
    /// Names of the underlyings, without duplicates.
    names: Vec<String>,
    /// `series[i]` holds the spots of `names[i]`, one per grid point.
    series: Vec<Vec<u64>>,
}

/// Two series hold binary64-equal values, one for one.
pub open spec fn series_equal(a: Seq<u64>, b: Seq<u64>) -> bool {
    a.len() == b.len() && forall|i: int| 0 <= i < a.len() ==> #[trigger] bits_equal(a[i], b[i])
}

/// Whether two series hold binary64-equal values, one for one.
fn series_eq(a: &[u64], b: &[u64]) -> (r: bool)
    ensures
        r == series_equal(a@, b@),
{
    if a.len() != b.len() {
        return false;
    }
    let mut i: usize = 0;
    while i < a.len()
        invariant
            i <= a@.len(),
            a@.len() == b@.len(),
            forall|k: int| 0 <= k < i ==> #[trigger] bits_equal(a@[k], b@[k]),
        decreases a.len() - i,
    {
        if !bits_eq(a[i], b[i]) {
            return false;
        }
        i = i + 1;
    }
    true
}

impl PartialEq for Path {
    /// Same grid and same underlyings with the same series, values compared as
    /// binary64 numbers.
    fn eq(&self, other: &Path) -> (r: bool) {
        proof {
            use_type_invariant(self);
            use_type_invariant(other);
        }
        if !series_eq(self.times.as_slice(), other.times.as_slice()) {
            return false;
        }
        let mut i: usize = 0;
        while i < self.names.len()
            invariant
                i <= self.names@.len(),
                self.inv(),
                other.inv(),
                forall|k: int|
                    0 <= k < i ==> other.spots().contains_key(#[trigger] self.names@[k]@)
                        && series_equal(self.series@[k]@, other.spots()[self.names@[k]@]),
            decreases self.names.len() - i,
        {
            proof {
                self.lemma_found(i as int);
            }
            match other.find(self.names[i].as_str()) {
                None => {
                    return false;
                },
                Some(j) => {
                    proof {
                        other.lemma_found(j as int);
                    }
                    if !series_eq(self.series[i].as_slice(), other.series[j].as_slice()) {
                        return false;
                    }
                },
            }
            i = i + 1;
        }
        let mut k: usize = 0;
        while k < other.names.len()
            invariant
                k <= other.names@.len(),
                self.inv(),
                other.inv(),
                forall|m: int| 0 <= m < k ==> self.spots().contains_key(#[trigger] other.names@[m]@),
            decreases other.names.len() - k,
        {
            proof {
                other.lemma_found(k as int);
            }
            if self.find(other.names[k].as_str()).is_none() {
                return false;
            }
            k = k + 1;
        }
        proof {
            assert forall|n: Seq<char>| #[trigger] self.spots().contains_key(n) implies other.spots().contains_key(n)
                && series_equal(self.spots()[n], other.spots()[n]) by {
                let m = choose|m: int| 0 <= m < self.names.len() && #[trigger] self.names@[m]@ == n;
                self.lemma_found(m);
            }
            assert forall|n: Seq<char>| #[trigger] other.spots().contains_key(n) implies self.spots().contains_key(n) by {
                let m = choose|m: int| 0 <= m < other.names.len() && #[trigger] other.names@[m]@ == n;
            }
            assert(self.spots().dom() =~= other.spots().dom());
        }
        true
    }
}

impl PartialEqSpecImpl for Path {
    open spec fn obeys_eq_spec() -> bool {
        true
    }

    open spec fn eq_spec(&self, other: &Path) -> bool {
        &&& series_equal(self.grid(), other.grid())
        &&& self.spots().dom() == other.spots().dom()
        &&& forall|n: Seq<char>|
            #[trigger] self.spots().contains_key(n) ==> series_equal(self.spots()[n], other.spots()[n])
    }
}

impl Clone for Path {
    /// A copy holding the same grid and the same series.
    fn clone(&self) -> (p: Path)
        ensures
            p.grid() == self.grid(),
            p.spots() == self.spots(),
    {
        proof {
            use_type_invariant(self);
        }
        let times = self.times.clone();
        assert(times@ =~= self.times@);
        let names = self.names.clone();
        assert(names@ =~= self.names@) by {
            assert forall|i: int| 0 <= i < names@.len() implies names@[i] == self.names@[i] by {
                assert(cloned::<String>(self.names[i], names[i]));
            }
        }
        let mut series: Vec<Vec<u64>> = Vec::new();
        let mut i: usize = 0;
        while i < self.series.len()
            invariant
                i <= self.series@.len(),
                self.inv(),
                series@.len() == i,
                forall|k: int| 0 <= k < i ==> #[trigger] series@[k]@ == self.series@[k]@,
            decreases self.series.len() - i,
        {
            let row = self.series[i].clone();
            assert(row@ =~= self.series@[i as int]@) by {
                assert forall|k: int| 0 <= k < row@.len() implies row@[k] == self.series@[i as int]@[k] by {
                    assert(cloned::<u64>(self.series[i as int][k], row[k]));
                }
            }
            series.push(row);
            i = i + 1;
        }
        assert(series@.len() == self.series@.len());
        assert forall|k: int| 0 <= k < series.len() implies #[trigger] series@[k].len() == times.len() by {
            assert(series@[k]@ == self.series@[k]@);
            assert(self.series@[k].len() == self.times.len());
        }
        assert forall|a: int, b: int| 0 <= a < b < names.len() implies #[trigger] names@[a]@ != #[trigger] names@[b]@ by {
            assert(self.names@[a]@ != self.names@[b]@);
        }
        let p = Path { times, names, series };
        assert(p.spots() =~= self.spots()) by {
            assert forall|k: Seq<char>| #[trigger] p.spots().contains_key(k) <==> self.spots().contains_key(k) by {
                if p.spots().contains_key(k) {
                    let j = choose|j: int| 0 <= j < p.names.len() && #[trigger] p.names@[j]@ == k;
                    assert(self.names@[j]@ == k);
                }
                if self.spots().contains_key(k) {
                    let j = choose|j: int| 0 <= j < self.names.len() && #[trigger] self.names@[j]@ == k;
                    assert(p.names@[j]@ == k);
                }
            }
        }
        p
    }
}

impl Path {
    #[verifier::type_invariant]
    spec fn inv(self) -> bool {
        &&& self.names.len() == self.series.len()
        &&& forall|i: int, j: int|
            0 <= i < j < self.names.len() ==> #[trigger] self.names@[i]@ != #[trigger] self.names@[j]@
        &&& forall|i: int|
            0 <= i < self.series.len() ==> #[trigger] self.series@[i].len() == self.times.len()
    }

    /// The time grid.
    pub closed spec fn grid(&self) -> Seq<u64> {
        self.times@
    }

    /// Index of the series of `name`.
    spec fn index_of(&self, name: Seq<char>) -> int {
        choose|i: int| 0 <= i < self.names.len() && #[trigger] self.names@[i]@ == name
    }

    /// The spot series of each underlying, by name.
    pub closed spec fn spots(&self) -> Map<Seq<char>, Seq<u64>> {
        Map::new(
            |k: Seq<char>| exists|i: int| 0 <= i < self.names.len() && #[trigger] self.names@[i]@ == k,
            |k: Seq<char>| self.series@[self.index_of(k)]@,
        )
    }

    /// Locates `name`, if the path holds it.
    fn find(&self, name: &str) -> (r: Option<usize>)
        ensures
            r is None <==> !self.spots().contains_key(name@),
            r matches Some(i) ==> i < self.names.len() && self.names@[i as int]@ == name@,
    {
        let r = find_name(&self.names, name);
        proof {
            if r is None && self.spots().contains_key(name@) {
                let j = choose|j: int| 0 <= j < self.names.len() && #[trigger] self.names@[j]@ == name@;
                assert(self.names@[j]@ != name@);
            }
        }
        r
    }

    /// The spots of `names@[i]`.
    proof fn lemma_found(&self, i: int)
        requires
            self.inv(),
            0 <= i < self.names.len(),
        ensures
            self.spots().contains_key(self.names@[i]@),
            self.spots()[self.names@[i]@] == self.series@[i]@,
    {
        let k = self.names@[i]@;
        let j = self.index_of(k);
        assert(self.names@[j]@ == k);
        if i < j {
            assert(self.names@[i]@ != self.names@[j]@);
        } else if j < i {
            assert(self.names@[j]@ != self.names@[i]@);
        }
    }

    /// An empty path on the given time grid.
    pub fn new(times: Vec<u64>) -> (p: Path)
        ensures
            p.grid() == times@,
            p.spots() == Map::<Seq<char>, Seq<u64>>::empty(),
    {
        let p = Path { times, names: Vec::new(), series: Vec::new() };
        assert(p.spots() =~= Map::<Seq<char>, Seq<u64>>::empty());
        p
    }

    /// Adds (or replaces) the series of an underlying.
    ///
    /// Fails with `InconsistentPath` exactly when the series does not have one
    /// value per grid point.
    pub fn with_asset(self, name: &str, values: Vec<u64>) -> (r: Result<Path, KontractError>)
        ensures
            r is Err <==> values@.len() != self.grid().len(),
            r matches Err(e) ==> e is InconsistentPath,
            r matches Ok(p) ==> p.grid() == self.grid() && p.spots() == self.spots().insert(
                name@,
                values@,
            ),
    {
        proof {
            use_type_invariant(&self);
        }
        if values.len() != self.times.len() {
            return Err(KontractError::InconsistentPath(
                mismatch_message(values.len(), self.times.len()),
            ));
        }
        let ghost old_spots = self.spots();
        proof {
            assert forall|j: int| 0 <= j < self.names.len() implies old_spots.contains_key(
                #[trigger] self.names@[j]@,
            ) && old_spots[self.names@[j]@] == self.series@[j]@ by {
                self.lemma_found(j);
            }
        }
        let idx = find_name(&self.names, name);
        let Path { times, mut names, mut series } = self;
        let ghost names0 = names@;
        let ghost series0 = series@;
        let found = idx.is_some();
        let i: usize = match idx { Some(k) => k, None => names.len() };
        if found {
            series.set(i, values);
        } else {
            names.push(name.to_owned());
            series.push(values);
        }
        proof {
            assert forall|a: int, b: int| 0 <= a < b < names.len() implies #[trigger] names@[a]@ != #[trigger] names@[b]@ by {
                if b == names0.len() {
                    assert(names0[a]@ != name@);
                } else {
                    assert(names0[a]@ != names0[b]@);
                }
            }
            assert forall|a: int| 0 <= a < series.len() implies #[trigger] series@[a].len() == times.len() by {
                if a != i {
                    assert(series@[a] == series0[a]);
                }
            }
        }
        let p = Path { times, names, series };
        proof {
            assert(p.spots() =~= old_spots.insert(name@, values@)) by {
                assert forall|k: Seq<char>| #[trigger] p.spots().contains_key(k) <==> old_spots.insert(
                    name@,
                    values@,
                ).contains_key(k) by {
                    if p.spots().contains_key(k) {
                        let j = choose|j: int| 0 <= j < p.names.len() && #[trigger] p.names@[j]@ == k;
                        if j < names0.len() {
                            assert(names0[j]@ == k);
                        }
                    }
                    if old_spots.contains_key(k) {
                        let j = choose|j: int| 0 <= j < names0.len() && #[trigger] names0[j]@ == k;
                        assert(p.names@[j]@ == k);
                    }
                    if k == name@ {
                        if found {
                            assert(p.names@[i as int]@ == k);
                        } else {
                            assert(p.names@[names0.len() as int]@ == k);
                        }
                    }
                }
                assert forall|k: Seq<char>| #[trigger] p.spots().contains_key(k) implies p.spots()[k]
                    == old_spots.insert(name@, values@)[k] by {
                    let j = p.index_of(k);
                    assert(p.names@[j]@ == k);
                    p.lemma_found(j);
                    if k != name@ {
                        assert(j < names0.len());
                        assert(names0[j]@ == k);
                        assert(old_spots[names0[j]@] == series0[j]@);
                    } else if found {
                        if j != i {
                            assert(p.names@[i as int]@ == k);
                        }
                    }
                }
            }
        }
        Ok(p)
    }

    /// Number of time steps.
    pub fn len(&self) -> (n: usize)
        ensures
            n == self.grid().len(),
    {
        self.times.len()
    }

    /// `true` if the grid is empty.
    pub fn is_empty(&self) -> (b: bool)
        ensures
            b == (self.grid().len() == 0),
    {
        self.times.len() == 0
    }

    /// The time grid.
    pub fn times(&self) -> (t: &[u64])
        ensures
            t@ == self.grid(),
    {
        self.times.as_slice()
    }

    /// The whole spot series of an underlying.
    pub fn spot_series(&self, name: &str) -> (r: Result<&[u64], KontractError>)
        ensures
            r is Ok <==> self.spots().contains_key(name@),
            r matches Ok(s) ==> s@ == self.spots()[name@] && s@.len() == self.grid().len(),
            r matches Err(e) ==> e is UnknownAsset && e->UnknownAsset_0@ == name@,
    {
        proof {
            use_type_invariant(self);
        }
        match self.find(name) {
            Some(i) => {
                proof {
                    self.lemma_found(i as int);
                    assert(self.series@[i as int].len() == self.times.len());
                }
                Ok(self.series[i].as_slice())
            },
            None => Err(KontractError::UnknownAsset(name.to_owned())),
        }
    }

    /// Spot price of an underlying at step `t`.
    ///
    /// Fails with `UnknownAsset` when the path does not hold the underlying,
    /// and otherwise with `StepOutOfRange(t)` when `t` is past the grid.
    pub fn spot(&self, name: &str, t: usize) -> (r: Result<u64, KontractError>)
        ensures
            r is Ok <==> self.spots().contains_key(name@) && t < self.grid().len(),
            r matches Ok(v) ==> v == self.spots()[name@][t as int],
            r matches Err(e) ==> if self.spots().contains_key(name@) {
                e == KontractError::StepOutOfRange(t)
            } else {
                e is UnknownAsset && e->UnknownAsset_0@ == name@
            },
    {
        proof {
            use_type_invariant(self);
        }
        match self.find(name) {
            Some(i) => {
                proof {
                    self.lemma_found(i as int);
                }
                if t < self.series[i].len() {
                    Ok(self.series[i][t])
                } else {
                    Err(KontractError::StepOutOfRange(t))
                }
            },
            None => Err(KontractError::UnknownAsset(name.to_owned())),
        }
    }
}

/// What `with_asset` stores is what is read back: after adding `values` for
/// `name`, the series of `name` is `values`, every other underlying keeps its
/// series, and no underlying appears or disappears but `name`.
pub proof fn lemma_with_asset_read_back(before: Path, after: Path, name: Seq<char>, values: Seq<u64>)
    requires
        after.spots() == before.spots().insert(name, values),
    ensures
        after.spots().contains_key(name),
        after.spots()[name] == values,
        forall|other: Seq<char>|
            other != name ==> (#[trigger] after.spots().contains_key(other)
                == before.spots().contains_key(other)) && (before.spots().contains_key(other)
                ==> after.spots()[other] == before.spots()[other]),
{
}

/// Locates `name` in a list of names.
fn find_name(names: &Vec<String>, name: &str) -> (r: Option<usize>)
    ensures
        r is None ==> forall|k: int| 0 <= k < names.len() ==> #[trigger] names@[k]@ != name@,
        r matches Some(i) ==> i < names.len() && names@[i as int]@ == name@,
{
    let mut i: usize = 0;
    while i < names.len()
        invariant
            i <= names.len(),
            forall|k: int| 0 <= k < i ==> #[trigger] names@[k]@ != name@,
        decreases names.len() - i,
    {
        match compare_names(names[i].as_str(), name) {
            Cmp::Equal => {
                return Some(i);
            },
            _ => {},
        }
        i = i + 1;
    }
    None
}

/// The message of a series whose length does not match the grid, written by
/// std's `format!` with the two counts in decimal. Nothing is claimed of the
/// text: the result is only carried into the error.
#[verifier::external_body]
fn mismatch_message(n_values: usize, n_dates: usize) -> String {
    format!("{} valeurs pour {} dates", n_values, n_dates)
}

} // verus!
