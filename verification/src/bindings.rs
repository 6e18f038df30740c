use crate::joystick::JoystickGuid;
use crate::vec_map::{Duplicate, VecMap};
use vstd::prelude::*;

verus! {

#[derive(Clone, Copy, Debug, PartialEq, Eq, Structural)]
pub enum HatState {
    Up,
    Down,
    Left,
    Right,
}

#[derive(Clone, Copy, Debug, PartialEq, Eq, Structural)]
pub enum AxisState {
    Positive,
    Negative,
}

/// A raw input reduced to what a binding can hold.
#[derive(Clone, Copy, Debug, PartialEq, Eq, Structural)]
pub enum JoystickEvent {
    Unassigned,
    Button(u8),
    Hat(u8, HatState),
    Axis(u8, AxisState),
}

impl Duplicate for Vec<JoystickEvent> {
    open spec fn alike(&self, other: &Self) -> bool {
        self@ == other@
    }

    fn duplicate(&self) -> (r: Self) {
        let mut r: Vec<JoystickEvent> = Vec::new();
        let mut i: usize = 0;
        while i < self.len()
            invariant
                i <= self@.len(),
                r@ == self@.subrange(0, i as int),
            decreases self@.len() - i,
        {
            r.push(self[i]);
            assert(r@ =~= self@.subrange(0, i + 1));
            i += 1;
        }
        assert(r@ =~= self@);
        r
    }
}

/// Bindings of one split of one controller, by context key.
pub type KeyLevel = VecMap<String, Vec<JoystickEvent>>;

/// Bindings of one controller, by split index.
pub type SplitLevel = VecMap<u32, KeyLevel>;

/// Bindings of all controllers, by identity.
pub type GuidLevel = VecMap<JoystickGuid, SplitLevel>;

/// Address of a stored mapping: controller identity, split index, context key.
pub type ConfigKey = (Seq<u8>, u32, Seq<char>);

/// The mapping stored under `k` in the three nested levels, if there is one.
pub open spec fn lookup(levels: Map<Seq<u8>, SplitLevel>, k: ConfigKey) -> Option<
    Seq<JoystickEvent>,
> {
    if levels.contains_key(k.0) && levels[k.0]@.contains_key(k.1) && levels[k.0]@[k.1]@.contains_key(
        k.2,
    ) {
        Some(levels[k.0]@[k.1]@[k.2]@)
    } else {
        None
    }
}

/// No level below the top is empty.
pub open spec fn pruned(levels: Map<Seq<u8>, SplitLevel>) -> bool {
    forall|g: Seq<u8>| #[trigger]
        levels.contains_key(g) ==> {
            &&& levels[g].entries().len() > 0
            &&& forall|s: u32| #[trigger]
                levels[g]@.contains_key(s) ==> levels[g]@[s].entries().len() > 0
        }
}

/// Control mappings stored per controller identity, split index and context
/// key (an emulator identifier or a ROM file name).
#[derive(Debug)]
pub struct JoystickConfig {
    levels: GuidLevel,
}

impl View for JoystickConfig {
    type V = Map<ConfigKey, Seq<JoystickEvent>>;

    open spec fn view(&self) -> Map<ConfigKey, Seq<JoystickEvent>> {
        Map::new(
            |k: ConfigKey| lookup(self.levels(), k) is Some,
            |k: ConfigKey| lookup(self.levels(), k).unwrap(),
        )
    }
}

impl JoystickConfig {
    #[verifier::type_invariant]
    spec fn inv(self) -> bool {
        pruned(self.levels@)
    }

    /// The nested levels as they are stored.
    pub closed spec fn levels(&self) -> Map<Seq<u8>, SplitLevel> {
        self.levels@
    }

    pub fn new() -> (r: JoystickConfig)
        ensures
            r@ == Map::<ConfigKey, Seq<JoystickEvent>>::empty(),
    {
        let r = JoystickConfig { levels: VecMap::new() };
        assert(r@ =~= Map::<ConfigKey, Seq<JoystickEvent>>::empty());
        r
    }

    /// Makes known that the stored structure holds no empty container.
    pub fn no_empty_level(&self)
        ensures
            pruned(self.levels()),
    {
        proof {
            use_type_invariant(self);
        }
    }

    /// The top level, for walking the stored structure.
    pub fn by_guid(&self) -> (r: &GuidLevel)
        ensures
            r@ == self.levels(),
            pruned(r@),
    {
        proof {
            use_type_invariant(self);
        }
        &self.levels
    }

    /// A copy that stores the same mappings under the same addresses.
    pub fn duplicate(&self) -> (r: JoystickConfig)
        ensures
            r@ == self@,
    {
        proof {
            use_type_invariant(self);
        }
        let levels = self.levels.duplicate();
        proof {
            let a = levels@;
            let b = self.levels@;
            assert forall|k: ConfigKey| #[trigger] lookup(a, k) == lookup(b, k) by {
                if a.contains_key(k.0) {
                    assert(a[k.0].alike(&b[k.0]));
                    if a[k.0]@.contains_key(k.1) {
                        assert(a[k.0]@[k.1].alike(&b[k.0]@[k.1]));
                        if a[k.0]@[k.1]@.contains_key(k.2) {
                            assert(a[k.0]@[k.1]@[k.2].alike(&b[k.0]@[k.1]@[k.2]));
                        }
                    }
                }
            }
            assert forall|g: Seq<u8>| #[trigger] a.contains_key(g) implies {
                &&& a[g].entries().len() > 0
                &&& forall|s: u32| #[trigger] a[g]@.contains_key(s) ==> a[g]@[s].entries().len() > 0
            } by {
                assert(a[g].alike(&b[g]));
                assert forall|s: u32| #[trigger] a[g]@.contains_key(s) implies a[g]@[s].entries().len()
                    > 0 by {
                    assert(a[g]@[s].alike(&b[g]@[s]));
                }
            }
        }
        let r = JoystickConfig { levels };
        assert(r@ =~= self@);
        r
    }

    /// Stores `mapping` under the address and hands back the mapping it replaces.
    pub fn insert(
        &mut self,
        guid: JoystickGuid,
        split: u32,
        key: String,
        mapping: Vec<JoystickEvent>,
    ) -> (r: Option<Vec<JoystickEvent>>)
        ensures
            final(self)@ == old(self)@.insert((guid@, split, key@), mapping@),
            r is Some == old(self)@.contains_key((guid@, split, key@)),
            r is Some ==> r.unwrap()@ == old(self)@[(guid@, split, key@)],
            pruned(final(self).levels()),
    {
        proof {
            use_type_invariant(&*self);
        }
        let ghost before = self.levels@;
        let mut levels = VecMap::new();
        std::mem::swap(&mut levels, &mut self.levels);
        let mut by_split = match levels.remove(&guid) {
            Some(m) => m,
            None => VecMap::new(),
        };
        let mut by_key = match by_split.remove(&split) {
            Some(m) => m,
            None => VecMap::new(),
        };
        let r = by_key.insert(key, mapping);
        by_split.insert(split, by_key);
        levels.insert(guid, by_split);
        proof {
            let k0 = (guid@, split, key@);
            assert forall|k: ConfigKey| #[trigger] lookup(levels@, k) == (if k == k0 {
                Some(mapping@)
            } else {
                lookup(before, k)
            }) by {}
        }
        self.levels = levels;
        proof {
            let m1 = self@;
            let m2 = old(self)@.insert((guid@, split, key@), mapping@);
            assert(m1 =~= m2);
        }
        r
    }

    pub fn contains_key(&self, guid: &JoystickGuid, split: &u32, key: &str) -> (r: bool)
        ensures
            r == self@.contains_key((guid@, *split, key@)),
    {
        self.get(guid, split, key).is_some()
    }

    /// Removes the mapping stored under the address, and with it each level
    /// that the removal leaves empty.
    pub fn remove(&mut self, guid: JoystickGuid, split: u32, key: String) -> (r: Option<
        Vec<JoystickEvent>,
    >)
        ensures
            final(self)@ == old(self)@.remove((guid@, split, key@)),
            r is Some == old(self)@.contains_key((guid@, split, key@)),
            r is Some ==> r.unwrap()@ == old(self)@[(guid@, split, key@)],
            pruned(final(self).levels()),
    {
        proof {
            use_type_invariant(&*self);
        }
        let ghost before = self.levels@;
        let ghost k0 = (guid@, split, key@);
        let mut levels = VecMap::new();
        std::mem::swap(&mut levels, &mut self.levels);
        let mut r = None;
        match levels.remove(&guid) {
            Some(by_split) => {
                let ghost split_before = by_split@;
                let mut by_split = by_split;
                match by_split.remove(&split) {
                    Some(by_key) => {
                        let ghost key_before = by_key@;
                        let mut by_key = by_key;
                        r = by_key.remove(&key);
                        if by_key.len() != 0 {
                            by_split.insert(split, by_key);
                            assert(by_split@ == split_before.insert(split, by_key));
                        } else {
                            assert(by_split@ == split_before.remove(split));
                        }
                        assert(by_key@ == key_before.remove(key@));
                    },
                    None => {
                        assert(by_split@ =~= split_before);
                    },
                }
                if by_split.len() != 0 {
                    levels.insert(guid, by_split);
                    assert(levels@ == before.insert(guid@, by_split));
                } else {
                    assert(levels@ == before.remove(guid@));
                }
                assert forall|k: ConfigKey| #[trigger] lookup(levels@, k) == (if k == k0 {
                    None
                } else {
                    lookup(before, k)
                }) by {
                    if k.0 == guid@ {
                        assert(before.contains_key(guid@));
                        assert(before[guid@]@ == split_before);
                        if levels@.contains_key(guid@) {
                            assert(levels@[guid@]@ == by_split@);
                        } else {
                            assert(by_split@ == Map::<u32, KeyLevel>::empty());
                            assert(!by_split@.contains_key(k.1));
                        }
                        if k.1 == split && split_before.contains_key(split) {
                            let key_before = split_before[split]@;
                            if by_split@.contains_key(split) {
                                assert(by_split@[split]@ == key_before.remove(key@));
                            } else {
                                assert(key_before.remove(key@) == Map::<
                                    Seq<char>,
                                    Vec<JoystickEvent>,
                                >::empty());
                                assert(!key_before.remove(key@).contains_key(k.2));
                            }
                        }
                    } else {
                        assert(levels@.contains_key(k.0) == before.contains_key(k.0));
                    }
                }
            },
            None => {
                assert(levels@ =~= before);
            },
        }
        assert(pruned(levels@));
        self.levels = levels;
        proof {
            let m1 = self@;
            let m2 = old(self)@.remove((guid@, split, key@));
            assert(m1 =~= m2);
        }
        r
    }

    pub fn get(&self, guid: &JoystickGuid, split: &u32, key: &str) -> (r: Option<
        &Vec<JoystickEvent>,
    >)
        ensures
            r is Some == self@.contains_key((guid@, *split, key@)),
            r is Some ==> r.unwrap()@ == self@[(guid@, *split, key@)],
    {
        let key = key.to_owned();
        match self.levels.get(guid) {
            Some(by_split) => match by_split.get(split) {
                Some(by_key) => by_key.get(&key),
                None => None,
            },
            None => None,
        }
    }
}

impl Clone for JoystickConfig {
    fn clone(&self) -> (r: Self)
        ensures
            r@ == self@,
    {
        self.duplicate()
    }
}

} // verus!
