//! Diffing and patching of single values.

use crate::diff::{Diff, EventQueue, Patch, PatchError, PathBuilder};
use crate::event::{NodeEventType, ParamData};
use vstd::prelude::*;

verus! {

/// Whether diffing has pushed one event that sets the parameter at `path` if it has
/// `changed`, and nothing else.
pub open spec fn param_diffed<E>(
    before: Seq<NodeEventType<E>>,
    after: Seq<NodeEventType<E>>,
    changed: bool,
    data: ParamData<E>,
    path: Seq<u32>,
) -> bool {
    if changed {
        &&& after.len() == before.len() + 1
        &&& after.drop_last() == before
        &&& after.last() matches NodeEventType::Param { data: d, path: p } && d == data && p@
            == path
    } else {
        after == before
    }
}

impl<E> Diff<E> for bool {
    fn diff<Q: EventQueue<E>>(&self, baseline: &Self, path: PathBuilder, event_queue: &mut Q)
        ensures
            param_diffed(
                old(event_queue).events(),
                final(event_queue).events(),
                *self != *baseline,
                ParamData::<E>::Bool(*self),
                path@,
            ),
    {
        if *self != *baseline {
            event_queue.push_param(ParamData::Bool(*self), path);
        }
    }
}

impl<E> Patch<E> for bool {
    type Patch = bool;

    fn patch(data: &ParamData<E>, path: &[u32]) -> (patch: Result<bool, PatchError>)
        ensures
            patch == (match data {
                ParamData::Bool(value) => Ok(*value),
                _ => Err(PatchError::InvalidData),
            }),
    {
        match data {
            ParamData::Bool(value) => Ok(*value),
            _ => Err(PatchError::InvalidData),
        }
    }

    fn apply(&mut self, patch: bool)
        ensures
            *final(self) == patch,
    {
        *self = patch;
    }
}

impl<E> Diff<E> for i32 {
    fn diff<Q: EventQueue<E>>(&self, baseline: &Self, path: PathBuilder, event_queue: &mut Q)
        ensures
            param_diffed(
                old(event_queue).events(),
                final(event_queue).events(),
                *self != *baseline,
                ParamData::<E>::I32(*self),
                path@,
            ),
    {
        if *self != *baseline {
            event_queue.push_param(ParamData::I32(*self), path);
        }
    }
}

impl<E> Patch<E> for i32 {
    type Patch = i32;

    fn patch(data: &ParamData<E>, path: &[u32]) -> (patch: Result<i32, PatchError>)
        ensures
            patch == (match data {
                ParamData::I32(value) => Ok(*value),
                _ => Err(PatchError::InvalidData),
            }),
    {
        match data {
            ParamData::I32(value) => Ok(*value),
            _ => Err(PatchError::InvalidData),
        }
    }

    fn apply(&mut self, patch: i32)
        ensures
            *final(self) == patch,
    {
        *self = patch;
    }
}

impl<E> Diff<E> for u32 {
    fn diff<Q: EventQueue<E>>(&self, baseline: &Self, path: PathBuilder, event_queue: &mut Q)
        ensures
            param_diffed(
                old(event_queue).events(),
                final(event_queue).events(),
                *self != *baseline,
                ParamData::<E>::U32(*self),
                path@,
            ),
    {
        if *self != *baseline {
            event_queue.push_param(ParamData::U32(*self), path);
        }
    }
}

impl<E> Patch<E> for u32 {
    type Patch = u32;

    fn patch(data: &ParamData<E>, path: &[u32]) -> (patch: Result<u32, PatchError>)
        ensures
            patch == (match data {
                ParamData::U32(value) => Ok(*value),
                _ => Err(PatchError::InvalidData),
            }),
    {
        match data {
            ParamData::U32(value) => Ok(*value),
            _ => Err(PatchError::InvalidData),
        }
    }

    fn apply(&mut self, patch: u32)
        ensures
            *final(self) == patch,
    {
        *self = patch;
    }
}

impl<E> Diff<E> for i64 {
    fn diff<Q: EventQueue<E>>(&self, baseline: &Self, path: PathBuilder, event_queue: &mut Q)
        ensures
            param_diffed(
                old(event_queue).events(),
                final(event_queue).events(),
                *self != *baseline,
                ParamData::<E>::I64(*self),
                path@,
            ),
    {
        if *self != *baseline {
            event_queue.push_param(ParamData::I64(*self), path);
        }
    }
}

impl<E> Patch<E> for i64 {
    type Patch = i64;

    fn patch(data: &ParamData<E>, path: &[u32]) -> (patch: Result<i64, PatchError>)
        ensures
            patch == (match data {
                ParamData::I64(value) => Ok(*value),
                _ => Err(PatchError::InvalidData),
            }),
    {
        match data {
            ParamData::I64(value) => Ok(*value),
            _ => Err(PatchError::InvalidData),
        }
    }

    fn apply(&mut self, patch: i64)
        ensures
            *final(self) == patch,
    {
        *self = patch;
    }
}

impl<E> Diff<E> for u64 {
    fn diff<Q: EventQueue<E>>(&self, baseline: &Self, path: PathBuilder, event_queue: &mut Q)
        ensures
            param_diffed(
                old(event_queue).events(),
                final(event_queue).events(),
                *self != *baseline,
                ParamData::<E>::U64(*self),
                path@,
            ),
    {
        if *self != *baseline {
            event_queue.push_param(ParamData::U64(*self), path);
        }
    }
}

impl<E> Patch<E> for u64 {
    type Patch = u64;

    fn patch(data: &ParamData<E>, path: &[u32]) -> (patch: Result<u64, PatchError>)
        ensures
            patch == (match data {
                ParamData::U64(value) => Ok(*value),
                _ => Err(PatchError::InvalidData),
            }),
    {
        match data {
            ParamData::U64(value) => Ok(*value),
            _ => Err(PatchError::InvalidData),
        }
    }

    fn apply(&mut self, patch: u64)
        ensures
            *final(self) == patch,
    {
        *self = patch;
    }
}

} // verus!
