//! Diffing and patching: finding what has changed in a node's parameters, and
//! applying the change elsewhere.

pub mod leaf;

use crate::event::{NodeEventType, ParamData};
use crate::small_list::SmallList;
use vstd::prelude::*;
use vstd::std_specs::convert::{FromSpec, FromSpecImpl, TryFromSpec};

verus! {

/// Fine-grained parameter diffing.
pub trait Diff<E> {
    /// Compare `self` to `baseline` and generate events to resolve any
    /// differences.
    fn diff<Q: EventQueue<E>>(&self, baseline: &Self, path: PathBuilder, event_queue: &mut Q);
}

/// A path of indices that uniquely describes an arbitrarily nested field.
#[derive(Debug, Clone, PartialEq, Eq)]
pub enum ParamPath {
    Single(u32),
    Multi(Vec<u32>),
}

impl View for ParamPath {
    type V = Seq<u32>;

    open spec fn view(&self) -> Seq<u32> {
        match self {
            ParamPath::Single(single) => seq![*single],
            ParamPath::Multi(multi) => multi@,
        }
    }
}

impl ParamPath {
    /// The indices of the path.
    pub fn to_vec(&self) -> (indices: Vec<u32>)
        ensures
            indices@ == self@,
    {
        match self {
            ParamPath::Single(single) => {
                let mut indices: Vec<u32> = Vec::new();
                indices.push(*single);
                assert(indices@ =~= seq![*single]);
                indices
            },
            ParamPath::Multi(multi) => {
                let indices = multi.clone();
                assert(indices@ =~= multi@);
                indices
            },
        }
    }
}

/// Why an event could not be turned into a patch.
#[derive(Debug, Clone, Copy, PartialEq, Eq, Structural)]
pub enum PatchError {
    /// The path in the event does not correspond to any valid parameter.
    InvalidPath,
    /// The data supplied for the path did not match the expected type.
    InvalidData,
}

/// Fine-grained parameter patching.
pub trait Patch<E> {
    /// A type's *patch*: the change of one of its parameters.
    type Patch;

    /// Construct a patch from a parameter event.
    fn patch(data: &ParamData<E>, path: &[u32]) -> Result<Self::Patch, PatchError>;

    /// Construct a patch from a node event. Errors are skipped, as are events
    /// that are not about a parameter.
    fn patch_event(event: &NodeEventType<E>) -> (patch: Option<Self::Patch>)
        ensures
            match event {
                NodeEventType::Param { data, path } => exists|indices: &[u32], result: Result<
                    Self::Patch,
                    PatchError,
                >|
                    #![trigger call_ensures(Self::patch, (data, indices), result)]
                    indices@ == path@ && call_ensures(Self::patch, (data, indices), result)
                        && patch == match result {
                        Ok(p) => Some(p),
                        Err(_) => None,
                    },
                _ => patch is None,
            },
    {
        match event {
            NodeEventType::Param { data, path } => {
                let indices = path.to_vec();
                let indices = indices.as_slice();
                let result = Self::patch(data, indices);
                let ghost result0 = result;
                assert(call_ensures(Self::patch, (data, indices), result0));
                patch_or_skip(result)
            },
            _ => None,
        }
    }

    /// Apply a patch.
    fn apply(&mut self, patch: Self::Patch);
}

/// The patch, unless it could not be constructed.
pub fn patch_or_skip<P>(result: Result<P, PatchError>) -> (patch: Option<P>)
    ensures
        patch == (match result {
            Ok(p) => Some(p),
            Err(_) => None,
        }),
{
    match result {
        Ok(patch) => Some(patch),
        Err(_) => None,
    }
}

/// A marker for types whose clones neither allocate nor free memory, so that
/// they can be made on the audio thread.
pub trait RealtimeClone: Clone {

}

/// A simple builder for [`ParamPath`].
///
/// When performing top-level diffing, you should provide a default
/// [`PathBuilder`].
pub struct PathBuilder(SmallList);

impl View for PathBuilder {
    type V = Seq<u32>;

    closed spec fn view(&self) -> Seq<u32> {
        self.0@.map_values(|w: u64| w as u32)
    }
}

impl Default for PathBuilder {
    fn default() -> (path: Self)
        ensures
            path@ == Seq::<u32>::empty(),
    {
        let path = PathBuilder(SmallList::new());
        assert(path@ =~= Seq::<u32>::empty());
        path
    }
}

impl PathBuilder {
    /// Clone the path and append the index.
    pub fn with(&self, index: u32) -> (path: Self)
        ensures
            path@ == self@.push(index),
    {
        let mut list = self.0.duplicate();
        list.push(index as u64);
        let path = PathBuilder(list);
        assert(path@ =~= self@.push(index));
        path
    }

    /// Convert this path builder into a [`ParamPath`].
    pub fn build(self) -> (path: ParamPath)
        ensures
            path@ == self@,
            path is Single <==> self@.len() == 1,
    {
        let len: usize = self.0.len();
        if len == 1 {
            let path = ParamPath::Single(word_to_index(self.0.get(0)));
            assert(path@ =~= self@);
            path
        } else {
            let mut indices: Vec<u32> = Vec::with_capacity(len);
            for i in 0..len
                invariant
                    len == self.0@.len(),
                    indices@ == self.0@.take(i as int).map_values(|w: u64| w as u32),
            {
                indices.push(word_to_index(self.0.get(i)));
                assert(indices@ =~= self.0@.take(i + 1).map_values(|w: u64| w as u32));
            }
            assert(self.0@.take(len as int) =~= self.0@);
            ParamPath::Multi(indices)
        }
    }
}

/// The low half of a word.
fn word_to_index(word: u64) -> (index: u32)
    ensures
        index == word as u32,
{
    #[verifier::truncate]
    let index: u32 = word as u32;
    index
}

/// An event queue for diffing.
pub trait EventQueue<E>: Sized {
    /// The events that were pushed, in order.
    spec fn events(&self) -> Seq<NodeEventType<E>>;

    /// Push an event to the queue.
    fn push(&mut self, data: NodeEventType<E>)
        ensures
            final(self).events() == old(self).events().push(data),
    ;

    /// Push an event to the queue that sets a parameter.
    fn push_param(&mut self, data: ParamData<E>, path: PathBuilder)
        ensures
            final(self).events().len() == old(self).events().len() + 1,
            final(self).events().drop_last() == old(self).events(),
            final(self).events().last() matches NodeEventType::Param { data: d, path: p } && d
                == data && p@ == path@,
    {
        let path = path.build();
        self.push(NodeEventType::Param { data, path });
        assert(self.events().drop_last() =~= old(self).events());
    }
}

impl<E> EventQueue<E> for Vec<NodeEventType<E>> {
    open spec fn events(&self) -> Seq<NodeEventType<E>> {
        self@
    }

    fn push(&mut self, data: NodeEventType<E>) {
        self.push(data);
    }
}

/// A lightweight wrapper that guarantees an event will be generated every time
/// the inner value is set, even if the value doesn't actually change. Each time it
/// is set, it gets an ID that was not used before.
#[derive(Debug, Clone, Copy, PartialEq, Eq)]
pub struct Notify<T> {
    value: T,
    id: u64,
}

impl<T> Notify<T> {
    /// The value.
    pub closed spec fn spec_value(&self) -> T {
        self.value
    }

    /// The ID of the value.
    pub closed spec fn spec_id(&self) -> u64 {
        self.id
    }

    /// Wraps a value.
    pub fn new(value: T, id: u64) -> (notify: Self)
        ensures
            notify.spec_value() == value,
            notify.spec_id() == id,
    {
        Notify { value, id }
    }

    /// Sets the value.
    pub fn set(&mut self, value: T, id: u64)
        ensures
            final(self).spec_value() == value,
            final(self).spec_id() == id,
    {
        self.value = value;
        self.id = id;
    }

    /// The value.
    pub fn get(&self) -> (value: &T)
        ensures
            *value == self.spec_value(),
    {
        &self.value
    }

    /// The ID of the value.
    pub fn id(&self) -> (id: u64)
        ensures
            id == self.spec_id(),
    {
        self.id
    }

    /// Wraps the value that some data holds.
    pub fn try_from_data<'a, E>(data: &'a ParamData<E>, id: u64) -> (result: Result<
        Self,
        PatchError,
    >) where T: TryFrom<&'a ParamData<E>, Error = PatchError>
        ensures
            <T as TryFromSpec<&'a ParamData<E>>>::obeys_try_from_spec() ==> match <T as TryFromSpec<
                &'a ParamData<E>,
            >>::try_from_spec(data) {
                Ok(value) => result matches Ok(notify) && notify.spec_value() == value
                    && notify.spec_id() == id,
                Err(e) => result == Err::<Self, _>(e),
            },
    {
        match T::try_from(data) {
            Ok(value) => Ok(Notify { value, id }),
            Err(e) => Err(e),
        }
    }
}

impl<E, T> From<Notify<T>> for ParamData<E> where ParamData<E>: From<T> {
    fn from(notify: Notify<T>) -> (data: Self) {
        ParamData::from(notify.value)
    }
}

impl<E, T> FromSpecImpl<Notify<T>> for ParamData<E> where ParamData<E>: From<T> {
    open spec fn obeys_from_spec() -> bool {
        <ParamData<E> as FromSpec<T>>::obeys_from_spec()
    }

    open spec fn from_spec(notify: Notify<T>) -> Self {
        <ParamData<E> as FromSpec<T>>::from_spec(notify.spec_value())
    }
}

} // verus!
