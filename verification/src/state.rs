//! The state of one encoding: the referents given out and the shared
//! strings met.

use crate::serializer::EncodeOptions;
use crate::serializer::EncodePropertyBehavior;
use crate::shared_string::SharedBlob;
use crate::shared_string::SharedString;
use crate::tree::NodeId;
use std::collections::HashMap;
use vstd::prelude::*;

verus! {

/// What an [`EmitState`] holds: the referent of every id met so far, the
/// referent that the next new id gets, and the shared strings met so far, in
/// the order in which they were first met.
#[verifier::ext_equal]
pub struct StateModel {
    pub referents: Map<NodeId, nat>,
    pub next_referent: nat,
    pub shared_strings: Seq<SharedBlob>,
}

impl StateModel {
    /// The state at the start of an encoding.
    pub open spec fn empty() -> StateModel {
        StateModel { referents: Map::empty(), next_referent: 0, shared_strings: Seq::empty() }
    }

    /// The referent that `id` has, or gets when it is met next.
    pub open spec fn referent_of(self, id: NodeId) -> nat {
        if self.referents.contains_key(id) {
            self.referents[id]
        } else {
            self.next_referent
        }
    }

    /// The state after `id` was met: an id met before keeps its referent, a
    /// new one takes the next number.
    pub open spec fn map_id(self, id: NodeId) -> StateModel {
        if self.referents.contains_key(id) {
            self
        } else {
            StateModel {
                referents: self.referents.insert(id, self.next_referent),
                next_referent: self.next_referent + 1,
                shared_strings: self.shared_strings,
            }
        }
    }

    /// Whether some id has the referent `referent`.
    pub open spec fn referent_used(self, referent: nat) -> bool {
        exists|id: NodeId|
            self.referents.contains_key(id) && #[trigger] self.referents[id] == referent
    }

    /// Whether a shared string with the digest `hash` was met.
    pub open spec fn holds_hash(self, hash: Seq<u8>) -> bool {
        exists|i: int|
            0 <= i < self.shared_strings.len() && #[trigger] self.shared_strings[i].hash == hash
    }

    /// The state after a shared string was met: one whose digest was met
    /// before changes nothing, a new one is added behind the others.
    pub open spec fn add_shared_string(self, blob: SharedBlob) -> StateModel {
        if self.holds_hash(blob.hash) {
            self
        } else {
            StateModel {
                referents: self.referents,
                next_referent: self.next_referent,
                shared_strings: self.shared_strings.push(blob),
            }
        }
    }

    /// Whether the referents are the numbers below `next_referent`, each
    /// given to exactly one id, and no digest occurs twice among the shared
    /// strings.
    pub open spec fn wf(self) -> bool {
        &&& self.referents.dom().finite()
        &&& self.referents.dom().len() == self.next_referent
        &&& forall|id: NodeId| #[trigger]
            self.referents.contains_key(id) ==> self.referents[id] < self.next_referent
        &&& forall|a: NodeId, b: NodeId|
            self.referents.contains_key(a) && self.referents.contains_key(b) && #[trigger]
            self.referents[a] == #[trigger] self.referents[b] ==> a == b
        &&& forall|referent: nat|
            referent < self.next_referent ==> #[trigger] self.referent_used(referent)
        &&& forall|i: int, j: int|
            0 <= i < j < self.shared_strings.len() ==> #[trigger] self.shared_strings[i].hash
                != #[trigger] self.shared_strings[j].hash
    }

    /// The empty state is well formed.
    pub proof fn lemma_empty_wf()
        ensures
            Self::empty().wf(),
    {
    }

    /// Referents stay dense and unique: after any id is met, the referents
    /// are again the numbers below `next_referent`, one for each distinct
    /// id. An id met before keeps its referent and the count stays; a new
    /// id gets the count as its referent, and the count grows by one.
    pub proof fn lemma_map_id_keeps_dense(self, id: NodeId)
        requires
            self.wf(),
        ensures
            self.map_id(id).wf(),
            self.map_id(id).referents.contains_key(id),
            self.map_id(id).referents[id] == self.referent_of(id),
            self.map_id(id).referents.dom() == self.referents.dom().insert(id),
            forall|other: NodeId|
                self.referents.contains_key(other) ==> self.map_id(id).referents[other]
                    == self.referents[other],
    {
        let after = self.map_id(id);
        if !self.referents.contains_key(id) {
            assert(after.referents.dom() =~= self.referents.dom().insert(id));
            assert forall|referent: nat| referent < after.next_referent implies #[trigger]
                after.referent_used(referent) by {
                if referent < self.next_referent {
                    assert(self.referent_used(referent));
                    let witness = choose|w: NodeId|
                        self.referents.contains_key(w) && #[trigger] self.referents[w] == referent;
                    assert(after.referents.contains_key(witness) && after.referents[witness]
                        == referent);
                } else {
                    assert(after.referents.contains_key(id) && after.referents[id] == referent);
                }
            }
        } else {
            assert(self.referents.dom().insert(id) =~= self.referents.dom());
        }
    }

    /// An id that was met has a referent, and a referent once given stays.
    pub proof fn lemma_map_id_gives_referent(self, id: NodeId)
        ensures
            self.map_id(id).referents.contains_key(id),
            self.map_id(id).referents[id] == self.referent_of(id),
            forall|other: NodeId|
                self.referents.contains_key(other) ==> self.map_id(id).referents.contains_key(
                    other,
                ) && self.map_id(id).referents[other] == self.referents[other],
    {
    }

    /// A shared string that was met is listed.
    pub proof fn lemma_shared_string_is_listed(self, blob: SharedBlob)
        ensures
            self.add_shared_string(blob).holds_hash(blob.hash),
    {
        let after = self.add_shared_string(blob);
        if !self.holds_hash(blob.hash) {
            assert(after.shared_strings[self.shared_strings.len() as int].hash == blob.hash);
        }
    }

    /// A shared string is listed once however often it is met: after a
    /// shared string is met, exactly one entry carries its digest, and no
    /// digest occurs twice.
    pub proof fn lemma_shared_string_listed_once(self, blob: SharedBlob)
        requires
            self.wf(),
        ensures
            self.add_shared_string(blob).wf(),
            self.add_shared_string(blob).holds_hash(blob.hash),
            self.add_shared_string(blob).add_shared_string(blob) == self.add_shared_string(blob),
    {
        let after = self.add_shared_string(blob);
        assert forall|referent: nat| referent < after.next_referent implies #[trigger]
            after.referent_used(referent) by {
            assert(self.referent_used(referent));
            let witness = choose|w: NodeId|
                self.referents.contains_key(w) && #[trigger] self.referents[w] == referent;
            assert(after.referents.contains_key(witness) && after.referents[witness] == referent);
        }
        if !self.holds_hash(blob.hash) {
            let last = self.shared_strings.len() as int;
            assert(after.shared_strings[last].hash == blob.hash);
            assert forall|i: int, j: int| 0 <= i < j < after.shared_strings.len() implies #[trigger]
                after.shared_strings[i].hash != #[trigger] after.shared_strings[j].hash by {
                if j == last {
                    assert(self.shared_strings[i].hash != blob.hash);
                }
            }
        }
    }
}

/// The state of one encoding: the options, the referents given out so far
/// and the shared strings that the document's dictionary will list.
pub struct EmitState {
    options: EncodeOptions,
    /// The ids written so far, each with the referent generated for it.
    referent_map: HashMap<NodeId, usize>,
    /// The referent that the next new id gets.
    next_referent: usize,
    /// The shared strings referenced so far, without repetition.
    shared_strings_to_emit: Vec<SharedString>,
}

impl View for EmitState {
    type V = StateModel;

    closed spec fn view(&self) -> StateModel {
        StateModel {
            referents: Map::new(
                |id: NodeId| self.referent_map@.contains_key(id),
                |id: NodeId| self.referent_map@[id] as nat,
            ),
            next_referent: self.next_referent as nat,
            shared_strings: self.shared_strings_to_emit@.map_values(|s: SharedString| s@),
        }
    }
}

impl EmitState {
    /// Whether the state is well formed, as [`StateModel::wf`] says.
    pub closed spec fn wf(&self) -> bool {
        self@.wf()
    }

    /// The behavior that the options of this encoding select.
    pub closed spec fn behavior(&self) -> EncodePropertyBehavior {
        self.options@
    }

    /// Starts an encoding with the given options: no id has a referent and
    /// no shared string was met.
    pub fn new(options: EncodeOptions) -> (state: EmitState)
        ensures
            state.wf(),
            state@ == StateModel::empty(),
            state.behavior() == options@,
    {
        let state = EmitState {
            options,
            referent_map: HashMap::new(),
            next_referent: 0,
            shared_strings_to_emit: Vec::new(),
        };
        assert(state@ =~= StateModel::empty());
        state
    }

    /// Returns the behavior that the options of this encoding select.
    pub fn property_behavior(&self) -> (behavior: EncodePropertyBehavior)
        ensures
            behavior == self.behavior(),
    {
        self.options.behavior()
    }

    /// Returns the shared strings that were referenced so far, in the order
    /// in which they were first referenced.
    pub fn shared_strings(&self) -> (shared: &Vec<SharedString>)
        ensures
            shared@.len() == self@.shared_strings.len(),
            forall|i: int| 0 <= i < shared@.len() ==> (#[trigger] shared@[i])@
                == self@.shared_strings[i],
    {
        &self.shared_strings_to_emit
    }

    /// Returns the referent of `id`. An id that is met for the first time
    /// gets the next unused number.
    pub fn map_id(&mut self, id: NodeId) -> (referent: usize)
        requires
            old(self).wf(),
        ensures
            final(self).wf(),
            final(self)@ == old(self)@.map_id(id),
            referent as nat == old(self)@.referent_of(id),
            final(self).behavior() == old(self).behavior(),
    {
        broadcast use vstd::std_specs::hash::group_hash_axioms;

        proof {
            old(self)@.lemma_map_id_keeps_dense(id);
        }
        let known = match self.referent_map.get(&id) {
            Some(value) => Some(*value),
            None => None,
        };
        match known {
            Some(referent) => referent,
            None => {
                let referent = self.next_referent;
                assert(old(self)@.referents.dom() =~= old(self).referent_map@.dom());
                self.referent_map.insert(id, referent);
                self.next_referent = self.referent_map.len();
                assert(self@.referents =~= old(self)@.map_id(id).referents);
                assert(self@ =~= old(self)@.map_id(id));
                referent
            },
        }
    }

    /// Notes that a shared string is referenced, so that the dictionary of
    /// the document lists it. A string whose digest was noted before changes
    /// nothing.
    pub fn add_shared_string(&mut self, value: SharedString)
        requires
            old(self).wf(),
        ensures
            final(self).wf(),
            final(self)@ == old(self)@.add_shared_string(value@),
            final(self).behavior() == old(self).behavior(),
    {
        let mut i: usize = 0;
        while i < self.shared_strings_to_emit.len()
            invariant
                i <= self.shared_strings_to_emit@.len(),
                *self == *old(self),
                self.wf(),
                forall|k: int|
                    0 <= k < i ==> (#[trigger] self@.shared_strings[k]).hash != value@.hash,
            decreases self.shared_strings_to_emit@.len() - i,
        {
            if self.shared_strings_to_emit[i].same_hash(&value) {
                assert(self@.shared_strings[i as int].hash == value@.hash);
                return ;
            }
            i += 1;
        }
        assert(!self@.holds_hash(value@.hash));
        proof {
            self@.lemma_shared_string_listed_once(value@);
        }
        self.shared_strings_to_emit.push(value);
        assert(self@.shared_strings =~= old(self)@.shared_strings.push(value@));
        assert(self@ =~= old(self)@.add_shared_string(value@));
    }
}

} // verus!
