//! What the data of a parameter says of its value.

use crate::clock::{
    DurationMusical, DurationSamples, DurationSeconds, EventInstant, InstantMusical,
    InstantSamples, InstantSeconds,
};
use crate::diff::leaf::param_diffed;
use crate::diff::{Notify, ParamPath, Patch, PatchError};
use crate::event::param_data::{F32Bits, F64Bits, ParamData, Vec2, Vec3, Volume};
use crate::event::{NodeEvent, NodeEventType};
use crate::node::NodeID;
use vstd::prelude::*;
use vstd::std_specs::convert::{FromSpec, TryFromSpec};

verus! {

/// Data that is made of a value is of the kind of the value, and holds the value itself.
pub proof fn law_data_holds_its_value<E>()
    ensures
        <ParamData<E> as FromSpec<()>>::from_spec(()) == ParamData::<E>::NoData,
        forall|v: Volume| #[trigger]
            <ParamData<E> as FromSpec<Volume>>::from_spec(v) == ParamData::<E>::Volume(v),
        forall|v: F32Bits| #[trigger]
            <ParamData<E> as FromSpec<F32Bits>>::from_spec(v) == ParamData::<E>::F32(v),
        forall|v: F64Bits| #[trigger]
            <ParamData<E> as FromSpec<F64Bits>>::from_spec(v) == ParamData::<E>::F64(v),
        forall|v: i32| #[trigger]
            <ParamData<E> as FromSpec<i32>>::from_spec(v) == ParamData::<E>::I32(v),
        forall|v: u32| #[trigger]
            <ParamData<E> as FromSpec<u32>>::from_spec(v) == ParamData::<E>::U32(v),
        forall|v: i64| #[trigger]
            <ParamData<E> as FromSpec<i64>>::from_spec(v) == ParamData::<E>::I64(v),
        forall|v: u64| #[trigger]
            <ParamData<E> as FromSpec<u64>>::from_spec(v) == ParamData::<E>::U64(v),
        forall|v: bool| #[trigger]
            <ParamData<E> as FromSpec<bool>>::from_spec(v) == ParamData::<E>::Bool(v),
        forall|v: Vec2| #[trigger]
            <ParamData<E> as FromSpec<Vec2>>::from_spec(v) == ParamData::<E>::Vector2D(v),
        forall|v: Vec3| #[trigger]
            <ParamData<E> as FromSpec<Vec3>>::from_spec(v) == ParamData::<E>::Vector3D(v),
        forall|v: EventInstant| #[trigger]
            <ParamData<E> as FromSpec<EventInstant>>::from_spec(v) == ParamData::<E>::EventInstant(v),
        forall|v: InstantSeconds| #[trigger]
            <ParamData<E> as FromSpec<InstantSeconds>>::from_spec(v) == ParamData::<E>::InstantSeconds(v),
        forall|v: DurationSeconds| #[trigger]
            <ParamData<E> as FromSpec<DurationSeconds>>::from_spec(v) == ParamData::<E>::DurationSeconds(v),
        forall|v: InstantSamples| #[trigger]
            <ParamData<E> as FromSpec<InstantSamples>>::from_spec(v) == ParamData::<E>::InstantSamples(v),
        forall|v: DurationSamples| #[trigger]
            <ParamData<E> as FromSpec<DurationSamples>>::from_spec(v) == ParamData::<E>::DurationSamples(v),
        forall|v: InstantMusical| #[trigger]
            <ParamData<E> as FromSpec<InstantMusical>>::from_spec(v) == ParamData::<E>::InstantMusical(v),
        forall|v: DurationMusical| #[trigger]
            <ParamData<E> as FromSpec<DurationMusical>>::from_spec(v) == ParamData::<E>::DurationMusical(v),
{
}

/// Data that is made of a value that may be missing is that of the value, or none.
pub proof fn law_data_of_missing_value_is_no_data<E>()
    ensures
        forall|v: Option<Volume>| #[trigger]
            <ParamData<E> as FromSpec<Option<Volume>>>::from_spec(v) == if v is Some {
                ParamData::<E>::Volume(v->0)
            } else {
                ParamData::<E>::NoData
            },
        forall|v: Option<F32Bits>| #[trigger]
            <ParamData<E> as FromSpec<Option<F32Bits>>>::from_spec(v) == if v is Some {
                ParamData::<E>::F32(v->0)
            } else {
                ParamData::<E>::NoData
            },
        forall|v: Option<F64Bits>| #[trigger]
            <ParamData<E> as FromSpec<Option<F64Bits>>>::from_spec(v) == if v is Some {
                ParamData::<E>::F64(v->0)
            } else {
                ParamData::<E>::NoData
            },
        forall|v: Option<i32>| #[trigger]
            <ParamData<E> as FromSpec<Option<i32>>>::from_spec(v) == if v is Some {
                ParamData::<E>::I32(v->0)
            } else {
                ParamData::<E>::NoData
            },
        forall|v: Option<u32>| #[trigger]
            <ParamData<E> as FromSpec<Option<u32>>>::from_spec(v) == if v is Some {
                ParamData::<E>::U32(v->0)
            } else {
                ParamData::<E>::NoData
            },
        forall|v: Option<i64>| #[trigger]
            <ParamData<E> as FromSpec<Option<i64>>>::from_spec(v) == if v is Some {
                ParamData::<E>::I64(v->0)
            } else {
                ParamData::<E>::NoData
            },
        forall|v: Option<u64>| #[trigger]
            <ParamData<E> as FromSpec<Option<u64>>>::from_spec(v) == if v is Some {
                ParamData::<E>::U64(v->0)
            } else {
                ParamData::<E>::NoData
            },
        forall|v: Option<bool>| #[trigger]
            <ParamData<E> as FromSpec<Option<bool>>>::from_spec(v) == if v is Some {
                ParamData::<E>::Bool(v->0)
            } else {
                ParamData::<E>::NoData
            },
        forall|v: Option<Vec2>| #[trigger]
            <ParamData<E> as FromSpec<Option<Vec2>>>::from_spec(v) == if v is Some {
                ParamData::<E>::Vector2D(v->0)
            } else {
                ParamData::<E>::NoData
            },
        forall|v: Option<Vec3>| #[trigger]
            <ParamData<E> as FromSpec<Option<Vec3>>>::from_spec(v) == if v is Some {
                ParamData::<E>::Vector3D(v->0)
            } else {
                ParamData::<E>::NoData
            },
        forall|v: Option<EventInstant>| #[trigger]
            <ParamData<E> as FromSpec<Option<EventInstant>>>::from_spec(v) == if v is Some {
                ParamData::<E>::EventInstant(v->0)
            } else {
                ParamData::<E>::NoData
            },
        forall|v: Option<InstantSeconds>| #[trigger]
            <ParamData<E> as FromSpec<Option<InstantSeconds>>>::from_spec(v) == if v is Some {
                ParamData::<E>::InstantSeconds(v->0)
            } else {
                ParamData::<E>::NoData
            },
        forall|v: Option<DurationSeconds>| #[trigger]
            <ParamData<E> as FromSpec<Option<DurationSeconds>>>::from_spec(v) == if v is Some {
                ParamData::<E>::DurationSeconds(v->0)
            } else {
                ParamData::<E>::NoData
            },
        forall|v: Option<InstantSamples>| #[trigger]
            <ParamData<E> as FromSpec<Option<InstantSamples>>>::from_spec(v) == if v is Some {
                ParamData::<E>::InstantSamples(v->0)
            } else {
                ParamData::<E>::NoData
            },
        forall|v: Option<DurationSamples>| #[trigger]
            <ParamData<E> as FromSpec<Option<DurationSamples>>>::from_spec(v) == if v is Some {
                ParamData::<E>::DurationSamples(v->0)
            } else {
                ParamData::<E>::NoData
            },
        forall|v: Option<InstantMusical>| #[trigger]
            <ParamData<E> as FromSpec<Option<InstantMusical>>>::from_spec(v) == if v is Some {
                ParamData::<E>::InstantMusical(v->0)
            } else {
                ParamData::<E>::NoData
            },
        forall|v: Option<DurationMusical>| #[trigger]
            <ParamData<E> as FromSpec<Option<DurationMusical>>>::from_spec(v) == if v is Some {
                ParamData::<E>::DurationMusical(v->0)
            } else {
                ParamData::<E>::NoData
            },
{
}

/// Data is read as the value that it holds, where it is of the kind of the value. Data of
/// every other kind is refused.
pub proof fn law_data_is_read_as_the_value_it_holds<E>(data: ParamData<E>)
    ensures
        <() as TryFromSpec<&ParamData<E>>>::try_from_spec(&data) == if data is NoData {
            Ok::<(), PatchError>(())
        } else {
            Err(PatchError::InvalidData)
        },
        <Volume as TryFromSpec<&ParamData<E>>>::try_from_spec(&data) == if data is Volume {
            Ok::<Volume, PatchError>(data->Volume_0)
        } else {
            Err(PatchError::InvalidData)
        },
        <F32Bits as TryFromSpec<&ParamData<E>>>::try_from_spec(&data) == if data is F32 {
            Ok::<F32Bits, PatchError>(data->F32_0)
        } else {
            Err(PatchError::InvalidData)
        },
        <F64Bits as TryFromSpec<&ParamData<E>>>::try_from_spec(&data) == if data is F64 {
            Ok::<F64Bits, PatchError>(data->F64_0)
        } else {
            Err(PatchError::InvalidData)
        },
        <i32 as TryFromSpec<&ParamData<E>>>::try_from_spec(&data) == if data is I32 {
            Ok::<i32, PatchError>(data->I32_0)
        } else {
            Err(PatchError::InvalidData)
        },
        <u32 as TryFromSpec<&ParamData<E>>>::try_from_spec(&data) == if data is U32 {
            Ok::<u32, PatchError>(data->U32_0)
        } else {
            Err(PatchError::InvalidData)
        },
        <i64 as TryFromSpec<&ParamData<E>>>::try_from_spec(&data) == if data is I64 {
            Ok::<i64, PatchError>(data->I64_0)
        } else {
            Err(PatchError::InvalidData)
        },
        <u64 as TryFromSpec<&ParamData<E>>>::try_from_spec(&data) == if data is U64 {
            Ok::<u64, PatchError>(data->U64_0)
        } else {
            Err(PatchError::InvalidData)
        },
        <bool as TryFromSpec<&ParamData<E>>>::try_from_spec(&data) == if data is Bool {
            Ok::<bool, PatchError>(data->Bool_0)
        } else {
            Err(PatchError::InvalidData)
        },
        <Vec2 as TryFromSpec<&ParamData<E>>>::try_from_spec(&data) == if data is Vector2D {
            Ok::<Vec2, PatchError>(data->Vector2D_0)
        } else {
            Err(PatchError::InvalidData)
        },
        <Vec3 as TryFromSpec<&ParamData<E>>>::try_from_spec(&data) == if data is Vector3D {
            Ok::<Vec3, PatchError>(data->Vector3D_0)
        } else {
            Err(PatchError::InvalidData)
        },
        <EventInstant as TryFromSpec<&ParamData<E>>>::try_from_spec(&data) == if data is EventInstant {
            Ok::<EventInstant, PatchError>(data->EventInstant_0)
        } else {
            Err(PatchError::InvalidData)
        },
        <InstantSeconds as TryFromSpec<&ParamData<E>>>::try_from_spec(&data) == if data is InstantSeconds {
            Ok::<InstantSeconds, PatchError>(data->InstantSeconds_0)
        } else {
            Err(PatchError::InvalidData)
        },
        <DurationSeconds as TryFromSpec<&ParamData<E>>>::try_from_spec(&data) == if data is DurationSeconds {
            Ok::<DurationSeconds, PatchError>(data->DurationSeconds_0)
        } else {
            Err(PatchError::InvalidData)
        },
        <InstantSamples as TryFromSpec<&ParamData<E>>>::try_from_spec(&data) == if data is InstantSamples {
            Ok::<InstantSamples, PatchError>(data->InstantSamples_0)
        } else {
            Err(PatchError::InvalidData)
        },
        <DurationSamples as TryFromSpec<&ParamData<E>>>::try_from_spec(&data) == if data is DurationSamples {
            Ok::<DurationSamples, PatchError>(data->DurationSamples_0)
        } else {
            Err(PatchError::InvalidData)
        },
        <InstantMusical as TryFromSpec<&ParamData<E>>>::try_from_spec(&data) == if data is InstantMusical {
            Ok::<InstantMusical, PatchError>(data->InstantMusical_0)
        } else {
            Err(PatchError::InvalidData)
        },
        <DurationMusical as TryFromSpec<&ParamData<E>>>::try_from_spec(&data) == if data is DurationMusical {
            Ok::<DurationMusical, PatchError>(data->DurationMusical_0)
        } else {
            Err(PatchError::InvalidData)
        },
{
}

/// Data is read as a value that may be missing: as the value that it holds, where it is of
/// the kind of the value; as none, where it is no data. Data of every other kind is refused.
pub proof fn law_no_data_is_read_as_a_missing_value<E>(data: ParamData<E>)
    ensures
        <Option<Volume> as TryFromSpec<&ParamData<E>>>::try_from_spec(&data) == if data is Volume {
            Ok::<Option<Volume>, PatchError>(Some(data->Volume_0))
        } else if data is NoData {
            Ok(None)
        } else {
            Err(PatchError::InvalidData)
        },
        <Option<F32Bits> as TryFromSpec<&ParamData<E>>>::try_from_spec(&data) == if data is F32 {
            Ok::<Option<F32Bits>, PatchError>(Some(data->F32_0))
        } else if data is NoData {
            Ok(None)
        } else {
            Err(PatchError::InvalidData)
        },
        <Option<F64Bits> as TryFromSpec<&ParamData<E>>>::try_from_spec(&data) == if data is F64 {
            Ok::<Option<F64Bits>, PatchError>(Some(data->F64_0))
        } else if data is NoData {
            Ok(None)
        } else {
            Err(PatchError::InvalidData)
        },
        <Option<i32> as TryFromSpec<&ParamData<E>>>::try_from_spec(&data) == if data is I32 {
            Ok::<Option<i32>, PatchError>(Some(data->I32_0))
        } else if data is NoData {
            Ok(None)
        } else {
            Err(PatchError::InvalidData)
        },
        <Option<u32> as TryFromSpec<&ParamData<E>>>::try_from_spec(&data) == if data is U32 {
            Ok::<Option<u32>, PatchError>(Some(data->U32_0))
        } else if data is NoData {
            Ok(None)
        } else {
            Err(PatchError::InvalidData)
        },
        <Option<i64> as TryFromSpec<&ParamData<E>>>::try_from_spec(&data) == if data is I64 {
            Ok::<Option<i64>, PatchError>(Some(data->I64_0))
        } else if data is NoData {
            Ok(None)
        } else {
            Err(PatchError::InvalidData)
        },
        <Option<u64> as TryFromSpec<&ParamData<E>>>::try_from_spec(&data) == if data is U64 {
            Ok::<Option<u64>, PatchError>(Some(data->U64_0))
        } else if data is NoData {
            Ok(None)
        } else {
            Err(PatchError::InvalidData)
        },
        <Option<bool> as TryFromSpec<&ParamData<E>>>::try_from_spec(&data) == if data is Bool {
            Ok::<Option<bool>, PatchError>(Some(data->Bool_0))
        } else if data is NoData {
            Ok(None)
        } else {
            Err(PatchError::InvalidData)
        },
        <Option<Vec2> as TryFromSpec<&ParamData<E>>>::try_from_spec(&data) == if data is Vector2D {
            Ok::<Option<Vec2>, PatchError>(Some(data->Vector2D_0))
        } else if data is NoData {
            Ok(None)
        } else {
            Err(PatchError::InvalidData)
        },
        <Option<Vec3> as TryFromSpec<&ParamData<E>>>::try_from_spec(&data) == if data is Vector3D {
            Ok::<Option<Vec3>, PatchError>(Some(data->Vector3D_0))
        } else if data is NoData {
            Ok(None)
        } else {
            Err(PatchError::InvalidData)
        },
        <Option<EventInstant> as TryFromSpec<&ParamData<E>>>::try_from_spec(&data) == if data is EventInstant {
            Ok::<Option<EventInstant>, PatchError>(Some(data->EventInstant_0))
        } else if data is NoData {
            Ok(None)
        } else {
            Err(PatchError::InvalidData)
        },
        <Option<InstantSeconds> as TryFromSpec<&ParamData<E>>>::try_from_spec(&data) == if data is InstantSeconds {
            Ok::<Option<InstantSeconds>, PatchError>(Some(data->InstantSeconds_0))
        } else if data is NoData {
            Ok(None)
        } else {
            Err(PatchError::InvalidData)
        },
        <Option<DurationSeconds> as TryFromSpec<&ParamData<E>>>::try_from_spec(&data) == if data is DurationSeconds {
            Ok::<Option<DurationSeconds>, PatchError>(Some(data->DurationSeconds_0))
        } else if data is NoData {
            Ok(None)
        } else {
            Err(PatchError::InvalidData)
        },
        <Option<InstantSamples> as TryFromSpec<&ParamData<E>>>::try_from_spec(&data) == if data is InstantSamples {
            Ok::<Option<InstantSamples>, PatchError>(Some(data->InstantSamples_0))
        } else if data is NoData {
            Ok(None)
        } else {
            Err(PatchError::InvalidData)
        },
        <Option<DurationSamples> as TryFromSpec<&ParamData<E>>>::try_from_spec(&data) == if data is DurationSamples {
            Ok::<Option<DurationSamples>, PatchError>(Some(data->DurationSamples_0))
        } else if data is NoData {
            Ok(None)
        } else {
            Err(PatchError::InvalidData)
        },
        <Option<InstantMusical> as TryFromSpec<&ParamData<E>>>::try_from_spec(&data) == if data is InstantMusical {
            Ok::<Option<InstantMusical>, PatchError>(Some(data->InstantMusical_0))
        } else if data is NoData {
            Ok(None)
        } else {
            Err(PatchError::InvalidData)
        },
        <Option<DurationMusical> as TryFromSpec<&ParamData<E>>>::try_from_spec(&data) == if data is DurationMusical {
            Ok::<Option<DurationMusical>, PatchError>(Some(data->DurationMusical_0))
        } else if data is NoData {
            Ok(None)
        } else {
            Err(PatchError::InvalidData)
        },
{
}

/// Each conversion gives what is stated of it.
pub proof fn law_conversions_are_stated<E>()
    ensures
        <ParamData<E> as FromSpec<()>>::obeys_from_spec(),
        <() as TryFromSpec<&ParamData<E>>>::obeys_try_from_spec(),
        <ParamData<E> as FromSpec<Volume>>::obeys_from_spec(),
        <ParamData<E> as FromSpec<Option<Volume>>>::obeys_from_spec(),
        <Volume as TryFromSpec<&ParamData<E>>>::obeys_try_from_spec(),
        <Option<Volume> as TryFromSpec<&ParamData<E>>>::obeys_try_from_spec(),
        <ParamData<E> as FromSpec<F32Bits>>::obeys_from_spec(),
        <ParamData<E> as FromSpec<Option<F32Bits>>>::obeys_from_spec(),
        <F32Bits as TryFromSpec<&ParamData<E>>>::obeys_try_from_spec(),
        <Option<F32Bits> as TryFromSpec<&ParamData<E>>>::obeys_try_from_spec(),
        <ParamData<E> as FromSpec<F64Bits>>::obeys_from_spec(),
        <ParamData<E> as FromSpec<Option<F64Bits>>>::obeys_from_spec(),
        <F64Bits as TryFromSpec<&ParamData<E>>>::obeys_try_from_spec(),
        <Option<F64Bits> as TryFromSpec<&ParamData<E>>>::obeys_try_from_spec(),
        <ParamData<E> as FromSpec<i32>>::obeys_from_spec(),
        <ParamData<E> as FromSpec<Option<i32>>>::obeys_from_spec(),
        <i32 as TryFromSpec<&ParamData<E>>>::obeys_try_from_spec(),
        <Option<i32> as TryFromSpec<&ParamData<E>>>::obeys_try_from_spec(),
        <ParamData<E> as FromSpec<u32>>::obeys_from_spec(),
        <ParamData<E> as FromSpec<Option<u32>>>::obeys_from_spec(),
        <u32 as TryFromSpec<&ParamData<E>>>::obeys_try_from_spec(),
        <Option<u32> as TryFromSpec<&ParamData<E>>>::obeys_try_from_spec(),
        <ParamData<E> as FromSpec<i64>>::obeys_from_spec(),
        <ParamData<E> as FromSpec<Option<i64>>>::obeys_from_spec(),
        <i64 as TryFromSpec<&ParamData<E>>>::obeys_try_from_spec(),
        <Option<i64> as TryFromSpec<&ParamData<E>>>::obeys_try_from_spec(),
        <ParamData<E> as FromSpec<u64>>::obeys_from_spec(),
        <ParamData<E> as FromSpec<Option<u64>>>::obeys_from_spec(),
        <u64 as TryFromSpec<&ParamData<E>>>::obeys_try_from_spec(),
        <Option<u64> as TryFromSpec<&ParamData<E>>>::obeys_try_from_spec(),
        <ParamData<E> as FromSpec<bool>>::obeys_from_spec(),
        <ParamData<E> as FromSpec<Option<bool>>>::obeys_from_spec(),
        <bool as TryFromSpec<&ParamData<E>>>::obeys_try_from_spec(),
        <Option<bool> as TryFromSpec<&ParamData<E>>>::obeys_try_from_spec(),
        <ParamData<E> as FromSpec<Vec2>>::obeys_from_spec(),
        <ParamData<E> as FromSpec<Option<Vec2>>>::obeys_from_spec(),
        <Vec2 as TryFromSpec<&ParamData<E>>>::obeys_try_from_spec(),
        <Option<Vec2> as TryFromSpec<&ParamData<E>>>::obeys_try_from_spec(),
        <ParamData<E> as FromSpec<Vec3>>::obeys_from_spec(),
        <ParamData<E> as FromSpec<Option<Vec3>>>::obeys_from_spec(),
        <Vec3 as TryFromSpec<&ParamData<E>>>::obeys_try_from_spec(),
        <Option<Vec3> as TryFromSpec<&ParamData<E>>>::obeys_try_from_spec(),
        <ParamData<E> as FromSpec<EventInstant>>::obeys_from_spec(),
        <ParamData<E> as FromSpec<Option<EventInstant>>>::obeys_from_spec(),
        <EventInstant as TryFromSpec<&ParamData<E>>>::obeys_try_from_spec(),
        <Option<EventInstant> as TryFromSpec<&ParamData<E>>>::obeys_try_from_spec(),
        <ParamData<E> as FromSpec<InstantSeconds>>::obeys_from_spec(),
        <ParamData<E> as FromSpec<Option<InstantSeconds>>>::obeys_from_spec(),
        <InstantSeconds as TryFromSpec<&ParamData<E>>>::obeys_try_from_spec(),
        <Option<InstantSeconds> as TryFromSpec<&ParamData<E>>>::obeys_try_from_spec(),
        <ParamData<E> as FromSpec<DurationSeconds>>::obeys_from_spec(),
        <ParamData<E> as FromSpec<Option<DurationSeconds>>>::obeys_from_spec(),
        <DurationSeconds as TryFromSpec<&ParamData<E>>>::obeys_try_from_spec(),
        <Option<DurationSeconds> as TryFromSpec<&ParamData<E>>>::obeys_try_from_spec(),
        <ParamData<E> as FromSpec<InstantSamples>>::obeys_from_spec(),
        <ParamData<E> as FromSpec<Option<InstantSamples>>>::obeys_from_spec(),
        <InstantSamples as TryFromSpec<&ParamData<E>>>::obeys_try_from_spec(),
        <Option<InstantSamples> as TryFromSpec<&ParamData<E>>>::obeys_try_from_spec(),
        <ParamData<E> as FromSpec<DurationSamples>>::obeys_from_spec(),
        <ParamData<E> as FromSpec<Option<DurationSamples>>>::obeys_from_spec(),
        <DurationSamples as TryFromSpec<&ParamData<E>>>::obeys_try_from_spec(),
        <Option<DurationSamples> as TryFromSpec<&ParamData<E>>>::obeys_try_from_spec(),
        <ParamData<E> as FromSpec<InstantMusical>>::obeys_from_spec(),
        <ParamData<E> as FromSpec<Option<InstantMusical>>>::obeys_from_spec(),
        <InstantMusical as TryFromSpec<&ParamData<E>>>::obeys_try_from_spec(),
        <Option<InstantMusical> as TryFromSpec<&ParamData<E>>>::obeys_try_from_spec(),
        <ParamData<E> as FromSpec<DurationMusical>>::obeys_from_spec(),
        <ParamData<E> as FromSpec<Option<DurationMusical>>>::obeys_from_spec(),
        <DurationMusical as TryFromSpec<&ParamData<E>>>::obeys_try_from_spec(),
        <Option<DurationMusical> as TryFromSpec<&ParamData<E>>>::obeys_try_from_spec(),
{
}

/// What diffing a `i32` pushes is the value itself: it is what the value is made into, and
/// reading it gives the value back.
pub proof fn law_diffed_i32_is_read_back<E>(
    before: Seq<NodeEventType<E>>,
    after: Seq<NodeEventType<E>>,
    value: i32,
    path: Seq<u32>,
    at: &[u32],
    patch: Result<i32, PatchError>,
)
    requires
        param_diffed(before, after, true, ParamData::I32(value), path),
        call_ensures(<i32 as Patch<E>>::patch, (&after.last()->Param_data, at), patch),
    ensures
        after.len() == before.len() + 1,
        after.last()->Param_path@ == path,
        after.last()->Param_data == ParamData::<E>::I32(value),
        after.last()->Param_data == <ParamData<E> as FromSpec<i32>>::from_spec(value),
        <i32 as TryFromSpec<&ParamData<E>>>::try_from_spec(&after.last()->Param_data) == Ok::<
            i32,
            PatchError,
        >(value),
        patch == Ok::<i32, PatchError>(value),
{
}

/// What diffing a `u32` pushes is the value itself: it is what the value is made into, and
/// reading it gives the value back.
pub proof fn law_diffed_u32_is_read_back<E>(
    before: Seq<NodeEventType<E>>,
    after: Seq<NodeEventType<E>>,
    value: u32,
    path: Seq<u32>,
    at: &[u32],
    patch: Result<u32, PatchError>,
)
    requires
        param_diffed(before, after, true, ParamData::U32(value), path),
        call_ensures(<u32 as Patch<E>>::patch, (&after.last()->Param_data, at), patch),
    ensures
        after.len() == before.len() + 1,
        after.last()->Param_path@ == path,
        after.last()->Param_data == ParamData::<E>::U32(value),
        after.last()->Param_data == <ParamData<E> as FromSpec<u32>>::from_spec(value),
        <u32 as TryFromSpec<&ParamData<E>>>::try_from_spec(&after.last()->Param_data) == Ok::<
            u32,
            PatchError,
        >(value),
        patch == Ok::<u32, PatchError>(value),
{
}

/// What diffing a `i64` pushes is the value itself: it is what the value is made into, and
/// reading it gives the value back.
pub proof fn law_diffed_i64_is_read_back<E>(
    before: Seq<NodeEventType<E>>,
    after: Seq<NodeEventType<E>>,
    value: i64,
    path: Seq<u32>,
    at: &[u32],
    patch: Result<i64, PatchError>,
)
    requires
        param_diffed(before, after, true, ParamData::I64(value), path),
        call_ensures(<i64 as Patch<E>>::patch, (&after.last()->Param_data, at), patch),
    ensures
        after.len() == before.len() + 1,
        after.last()->Param_path@ == path,
        after.last()->Param_data == ParamData::<E>::I64(value),
        after.last()->Param_data == <ParamData<E> as FromSpec<i64>>::from_spec(value),
        <i64 as TryFromSpec<&ParamData<E>>>::try_from_spec(&after.last()->Param_data) == Ok::<
            i64,
            PatchError,
        >(value),
        patch == Ok::<i64, PatchError>(value),
{
}

/// What diffing a `u64` pushes is the value itself: it is what the value is made into, and
/// reading it gives the value back.
pub proof fn law_diffed_u64_is_read_back<E>(
    before: Seq<NodeEventType<E>>,
    after: Seq<NodeEventType<E>>,
    value: u64,
    path: Seq<u32>,
    at: &[u32],
    patch: Result<u64, PatchError>,
)
    requires
        param_diffed(before, after, true, ParamData::U64(value), path),
        call_ensures(<u64 as Patch<E>>::patch, (&after.last()->Param_data, at), patch),
    ensures
        after.len() == before.len() + 1,
        after.last()->Param_path@ == path,
        after.last()->Param_data == ParamData::<E>::U64(value),
        after.last()->Param_data == <ParamData<E> as FromSpec<u64>>::from_spec(value),
        <u64 as TryFromSpec<&ParamData<E>>>::try_from_spec(&after.last()->Param_data) == Ok::<
            u64,
            PatchError,
        >(value),
        patch == Ok::<u64, PatchError>(value),
{
}

/// What diffing a `bool` pushes is the value itself: it is what the value is made into, and
/// reading it gives the value back.
pub proof fn law_diffed_bool_is_read_back<E>(
    before: Seq<NodeEventType<E>>,
    after: Seq<NodeEventType<E>>,
    value: bool,
    path: Seq<u32>,
    at: &[u32],
    patch: Result<bool, PatchError>,
)
    requires
        param_diffed(before, after, true, ParamData::Bool(value), path),
        call_ensures(<bool as Patch<E>>::patch, (&after.last()->Param_data, at), patch),
    ensures
        after.len() == before.len() + 1,
        after.last()->Param_path@ == path,
        after.last()->Param_data == ParamData::<E>::Bool(value),
        after.last()->Param_data == <ParamData<E> as FromSpec<bool>>::from_spec(value),
        <bool as TryFromSpec<&ParamData<E>>>::try_from_spec(&after.last()->Param_data) == Ok::<
            bool,
            PatchError,
        >(value),
        patch == Ok::<bool, PatchError>(value),
{
}

/// Diffing adds one event for a value that has changed, after those that were there, and none
/// for one that has not.
pub proof fn law_diffing_adds_an_event_for_a_change<E>(
    before: Seq<NodeEventType<E>>,
    after: Seq<NodeEventType<E>>,
    changed: bool,
    data: ParamData<E>,
    path: Seq<u32>,
)
    requires
        param_diffed(before, after, changed, data, path),
    ensures
        after.take(before.len() as int) == before,
        after.len() - before.len() == if changed {
            1int
        } else {
            0
        },
        changed ==> after.last() is Param && after.last()->Param_data == data
            && after.last()->Param_path@ == path,
{
    if changed {
        assert(after.take(before.len() as int) =~= after.drop_last());
    } else {
        assert(after.take(before.len() as int) =~= after);
    }
}

/// A path is the indices that it was made of.
pub proof fn law_path_is_its_indices(index: u32, path: ParamPath, list: Vec<u32>)
    requires
        call_ensures(ParamPath::to_vec, (&path,), list),
    ensures
        path is Single ==> list@ =~= seq![path->Single_0],
        path is Multi ==> list@ == path->Multi_0@,
        ParamPath::Single(index)@ =~= seq![index],
{
}

/// A value with an ID is made into the data of the value.
pub proof fn law_notify_is_made_into_its_value<E>(notify: Notify<bool>)
    ensures
        <ParamData<E> as FromSpec<Notify<bool>>>::obeys_from_spec(),
        <ParamData<E> as FromSpec<Notify<bool>>>::from_spec(notify) == ParamData::<E>::Bool(
            notify.spec_value(),
        ),
{
}

/// Data is read as its value with the ID that is given, and refused where the value is.
pub proof fn law_notify_is_read_with_its_id<E>(
    data: ParamData<E>,
    id: u64,
    result: Result<Notify<bool>, PatchError>,
)
    requires
        call_ensures(Notify::<bool>::try_from_data::<E>, (&data, id), result),
    ensures
        data is Bool ==> result is Ok && result->Ok_0.spec_value() == data->Bool_0
            && result->Ok_0.spec_id() == id,
        !(data is Bool) ==> result == Err::<Notify<bool>, PatchError>(PatchError::InvalidData),
{
}

/// A value of a custom type is found in the data that was made of it, and nothing is found in
/// data of another kind.
pub proof fn law_custom_value_is_found<E>(
    value: E,
    data: ParamData<E>,
    maybe: Option<E>,
    opt_data: ParamData<E>,
    other: ParamData<E>,
    found: Option<&E>,
)
    requires
        call_ensures(ParamData::<E>::any, (value,), data),
        call_ensures(ParamData::<E>::opt_any, (maybe,), opt_data),
        call_ensures(ParamData::<E>::downcast_ref, (&other,), found),
    ensures
        data is Any && data->Any_0 == value,
        maybe is Some ==> opt_data is Any && opt_data->Any_0 == maybe->0,
        maybe is None ==> opt_data is NoData,
        other is Any <==> found is Some,
        found is Some ==> *found->0 == other->Any_0,
{
}

/// An event is for the node that was given, and happens at the time that was given, or at once
/// if there was none.
pub proof fn law_event_is_what_it_was_made_of<E>(
    node_id: NodeID,
    time: EventInstant,
    event: NodeEventType<E>,
    at_once: NodeEvent<E>,
    scheduled: NodeEvent<E>,
)
    requires
        call_ensures(NodeEvent::<E>::new, (node_id, event), at_once),
        call_ensures(NodeEvent::<E>::scheduled, (node_id, time, event), scheduled),
    ensures
        at_once.node_id == node_id && at_once.event == event && at_once.time is None,
        scheduled.node_id == node_id && scheduled.event == event && scheduled.time == Some(time),
{
}

} // verus!
