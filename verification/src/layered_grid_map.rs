//! A named collection of grid maps sharing one geometry, looked up by
//! layer name. Entries are kept as an association list with unique
//! names; no consistency holds across layers beyond the geometry.

use vstd::prelude::*;

use crate::grid_map::GridMap;

verus! {

/// Well-formed layer store: every map well formed, names unique, and
/// all maps over the same raster.
pub open spec fn spec_layers_wf<T>(layers: Seq<(String, GridMap<T>)>) -> bool {
    &&& forall|i: int| 0 <= i < layers.len() ==> (#[trigger] layers[i]).1.wf()
    &&& forall|i: int, j: int|
        0 <= i < layers.len() && 0 <= j < layers.len() && i != j ==> (#[trigger] layers[i]).0@
            != (#[trigger] layers[j]).0@
    &&& forall|i: int, j: int|
        0 <= i < layers.len() && 0 <= j < layers.len() ==> (#[trigger] layers[i]).1.same_geometry(
            &(#[trigger] layers[j]).1,
        )
}

/// A mapping from layer name to grid map.
#[derive(Clone, Debug)]
pub struct LayeredGridMap<T> {
    pub layers: Vec<(String, GridMap<T>)>,
}

impl<T> LayeredGridMap<T> {
    pub open spec fn wf(&self) -> bool {
        spec_layers_wf(self.layers@)
    }

    /// Some layer carries this name.
    pub open spec fn spec_has_layer(&self, name: Seq<char>) -> bool {
        exists|i: int|
            0 <= i < self.layers@.len() && (#[trigger] self.layers@[i]).0@ == name
    }

    /// The index of the layer with this name (meaningful only when one
    /// exists; unique when the store is well formed).
    pub open spec fn spec_layer_index(&self, name: Seq<char>) -> int {
        choose|i: int|
            0 <= i < self.layers@.len() && (#[trigger] self.layers@[i]).0@ == name
    }

    /// The map stored under this name, if any.
    pub open spec fn spec_layer(&self, name: Seq<char>) -> Option<GridMap<T>> {
        if self.spec_has_layer(name) {
            Some(self.layers@[self.spec_layer_index(name)].1)
        } else {
            None
        }
    }

    /// With unique names, any entry carrying the name is the looked-up
    /// layer.
    pub proof fn lemma_layer_unique(&self, name: Seq<char>, i: int)
        requires
            self.wf(),
            0 <= i < self.layers@.len(),
            self.layers@[i].0@ == name,
        ensures
            self.spec_has_layer(name),
            self.spec_layer_index(name) == i,
            self.spec_layer(name) == Some(self.layers@[i].1),
    {
        assert(self.spec_has_layer(name));
        let j = self.spec_layer_index(name);
        assert(0 <= j < self.layers@.len() && self.layers@[j].0@ == name);
        if i != j {
            assert(self.layers@[i].0@ != self.layers@[j].0@);
        }
    }

    /// Store the given layers; names must be unique and the geometry
    /// shared (a configuration error here is a caller bug).
    pub fn new(layers: Vec<(String, GridMap<T>)>) -> (r: LayeredGridMap<T>)
        requires
            spec_layers_wf(layers@),
        ensures
            r.wf(),
            r.layers == layers,
    {
        LayeredGridMap { layers }
    }

    /// Look up a layer by name.
    pub fn layer(&self, name: &String) -> (r: Option<&GridMap<T>>)
        requires
            self.wf(),
        ensures
            r is Some <==> self.spec_has_layer(name@),
            r matches Some(m) ==> self.spec_layer(name@) == Some(*m),
    {
        let n = self.layers.len();
        let mut idx: usize = 0;
        while idx < n
            invariant
                self.wf(),
                n == self.layers@.len(),
                idx <= n,
                forall|j: int| 0 <= j < idx ==> (#[trigger] self.layers@[j]).0@ != name@,
            decreases n - idx,
        {
            if self.layers[idx].0.eq(name) {
                proof {
                    self.lemma_layer_unique(name@, idx as int);
                }
                return Some(&self.layers[idx].1);
            }
            idx = idx + 1;
        }
        proof {
            assert(!self.spec_has_layer(name@));
        }
        None
    }

    /// Insert a layer under the given name, replacing any layer already
    /// stored under it. The new map must share the store's geometry.
    #[verifier::loop_isolation(false)]
    pub fn add_layer(&mut self, name: String, map: GridMap<T>)
        requires
            old(self).wf(),
            map.wf(),
            forall|i: int|
                0 <= i < old(self).layers@.len() ==> map.same_geometry(
                    &(#[trigger] old(self).layers@[i]).1,
                ),
        ensures
            final(self).wf(),
            final(self).spec_layer(name@) == Some::<GridMap<T>>(map),
            forall|n: Seq<char>|
                n != name@ ==> #[trigger] final(self).spec_layer(n) == old(self).spec_layer(n),
    {
        let n = self.layers.len();
        let mut idx: usize = 0;
        while idx < n
            invariant
                self == old(self),
                n == self.layers@.len(),
                idx <= n,
                forall|j: int| 0 <= j < idx ==> (#[trigger] self.layers@[j]).0@ != name@,
            decreases n - idx,
        {
            if self.layers[idx].0.eq(&name) {
                let ghost prev = self.layers@;
                proof {
                    assert(prev == old(self).layers@);
                }
                self.layers.set(idx, (name, map));
                proof {
                    assert forall|i: int, j: int|
                        0 <= i < self.layers@.len() && 0 <= j < self.layers@.len()
                            ==> (#[trigger] self.layers@[i]).1.same_geometry(
                            &(#[trigger] self.layers@[j]).1,
                        ) by {
                        if 0 <= i < self.layers@.len() && 0 <= j < self.layers@.len() {
                            assert(old(self).layers@[i].1.same_geometry(&old(self).layers@[j].1));
                            assert(map.same_geometry(&old(self).layers@[i].1));
                            assert(map.same_geometry(&old(self).layers@[j].1));
                        }
                    }
                    self.lemma_layer_unique(name@, idx as int);
                    assert forall|nm: Seq<char>| nm != name@ implies #[trigger] self.spec_layer(nm)
                        == old(self).spec_layer(nm) by {
                        if old(self).spec_has_layer(nm) {
                            let w = old(self).spec_layer_index(nm);
                            old(self).lemma_layer_unique(nm, w);
                            assert(self.layers@[w].0@ == nm);
                            self.lemma_layer_unique(nm, w);
                        } else {
                            if self.spec_has_layer(nm) {
                                let w = self.spec_layer_index(nm);
                                assert(prev[w].0@ == nm);
                            }
                        }
                    }
                }
                return ;
            }
            idx = idx + 1;
        }
        let ghost prev = self.layers@;
        proof {
            assert(prev == old(self).layers@);
        }
        self.layers.push((name, map));
        proof {
            assert forall|i: int, j: int|
                0 <= i < self.layers@.len() && 0 <= j < self.layers@.len()
                    ==> (#[trigger] self.layers@[i]).1.same_geometry(
                    &(#[trigger] self.layers@[j]).1,
                ) by {
                if 0 <= i < self.layers@.len() && 0 <= j < self.layers@.len() {
                    if i < prev.len() && j < prev.len() {
                        assert(old(self).layers@[i].1.same_geometry(&old(self).layers@[j].1));
                    } else if i < prev.len() {
                        assert(map.same_geometry(&old(self).layers@[i].1));
                    } else if j < prev.len() {
                        assert(map.same_geometry(&old(self).layers@[j].1));
                    }
                }
            }
            self.lemma_layer_unique(name@, prev.len() as int);
            assert forall|nm: Seq<char>| nm != name@ implies #[trigger] self.spec_layer(nm)
                == old(self).spec_layer(nm) by {
                if old(self).spec_has_layer(nm) {
                    let w = old(self).spec_layer_index(nm);
                    old(self).lemma_layer_unique(nm, w);
                    assert(self.layers@[w].0@ == nm);
                    self.lemma_layer_unique(nm, w);
                } else {
                    if self.spec_has_layer(nm) {
                        let w = self.spec_layer_index(nm);
                        assert(0 <= w < self.layers@.len() && self.layers@[w].0@ == nm);
                        assert(w < prev.len());
                        assert(prev[w].0@ == nm);
                    }
                }
            }
        }
    }
}

} // verus!
