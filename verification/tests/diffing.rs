use firewheel::clock::{EventInstant, InstantSamples};
use firewheel::diff::{Diff, EventQueue, Notify, ParamPath, Patch, PatchError, PathBuilder};
use firewheel::event::param_data::{F32Bits, F64Bits, Vec2, Vec3, Volume};
use firewheel::event::{NodeEvent, NodeEventType, ParamData, ProcEvents};
use firewheel::node::NodeID;

type Events = Vec<NodeEventType<DiffingExample>>;

#[derive(Debug, Clone, PartialEq)]
struct StructDiff {
    a: f32,
    b: bool,
}

enum StructDiffPatch {
    A(f32),
    B(bool),
}

fn float_of<E>(data: &ParamData<E>) -> Result<f32, PatchError> {
    F32Bits::try_from(data).map(|bits| f32::from_bits(bits.0))
}

fn diff_float<E, Q: EventQueue<E>>(value: f32, baseline: f32, path: PathBuilder, queue: &mut Q) {
    if value != baseline {
        queue.push_param(ParamData::F32(F32Bits(value.to_bits())), path);
    }
}

impl<E> Diff<E> for StructDiff {
    fn diff<Q: EventQueue<E>>(&self, baseline: &Self, path: PathBuilder, event_queue: &mut Q) {
        diff_float(self.a, baseline.a, path.with(0), event_queue);
        self.b.diff(&baseline.b, path.with(1), event_queue);
    }
}

impl<E> Patch<E> for StructDiff {
    type Patch = StructDiffPatch;

    fn patch(data: &ParamData<E>, path: &[u32]) -> Result<StructDiffPatch, PatchError> {
        match path {
            [0] => Ok(StructDiffPatch::A(float_of(data)?)),
            [1, tail @ ..] => Ok(StructDiffPatch::B(bool::patch(data, tail)?)),
            _ => Err(PatchError::InvalidPath),
        }
    }

    fn apply(&mut self, patch: StructDiffPatch) {
        match patch {
            StructDiffPatch::A(a) => self.a = a,
            StructDiffPatch::B(b) => <bool as Patch<E>>::apply(&mut self.b, b),
        }
    }
}

#[test]
fn test_simple_diff() {
    let mut a = StructDiff { a: 1.0, b: false };
    let mut b = a.clone();
    a.a = 0.5;

    let mut patches: Events = Vec::new();
    a.diff(&b, PathBuilder::default(), &mut patches);
    assert_eq!(patches.len(), 1);
    for patch in patches.iter() {
        let patch = <StructDiff as Patch<DiffingExample>>::patch_event(patch).unwrap();
        assert!(matches!(patch, StructDiffPatch::A(a) if a == 0.5));
        <StructDiff as Patch<DiffingExample>>::apply(&mut b, patch);
    }
    assert_eq!(a, b);
}

#[derive(Debug, Clone, PartialEq)]
enum DiffingExample {
    Unit,
    Tuple(f32, f32),
    Struct { a: f32, b: f32 },
}

enum DiffingExamplePatch {
    Tuple0(f32),
    Tuple1(f32),
    StructA(f32),
    StructB(f32),
    Whole(DiffingExample),
}

impl Diff<DiffingExample> for DiffingExample {
    fn diff<Q: EventQueue<DiffingExample>>(
        &self,
        baseline: &Self,
        path: PathBuilder,
        event_queue: &mut Q,
    ) {
        match (self, baseline) {
            (DiffingExample::Unit, DiffingExample::Unit) => {}
            (DiffingExample::Tuple(a, b), DiffingExample::Tuple(c, d)) => {
                diff_float(*a, *c, path.with(1).with(0), event_queue);
                diff_float(*b, *d, path.with(1).with(1), event_queue);
            }
            (DiffingExample::Struct { a, b }, DiffingExample::Struct { a: c, b: d }) => {
                diff_float(*a, *c, path.with(2).with(0), event_queue);
                diff_float(*b, *d, path.with(2).with(1), event_queue);
            }
            _ => event_queue.push_param(ParamData::any(self.clone()), path),
        }
    }
}

impl Patch<DiffingExample> for DiffingExample {
    type Patch = DiffingExamplePatch;

    fn patch(
        data: &ParamData<DiffingExample>,
        path: &[u32],
    ) -> Result<DiffingExamplePatch, PatchError> {
        match path {
            [] => match data.downcast_ref() {
                Some(value) => Ok(DiffingExamplePatch::Whole(value.clone())),
                None => Err(PatchError::InvalidData),
            },
            [1, 0] => Ok(DiffingExamplePatch::Tuple0(float_of(data)?)),
            [1, 1] => Ok(DiffingExamplePatch::Tuple1(float_of(data)?)),
            [2, 0] => Ok(DiffingExamplePatch::StructA(float_of(data)?)),
            [2, 1] => Ok(DiffingExamplePatch::StructB(float_of(data)?)),
            _ => Err(PatchError::InvalidPath),
        }
    }

    fn apply(&mut self, patch: DiffingExamplePatch) {
        match (self, patch) {
            (value, DiffingExamplePatch::Whole(new)) => *value = new,
            (DiffingExample::Tuple(a, _), DiffingExamplePatch::Tuple0(x)) => *a = x,
            (DiffingExample::Tuple(_, b), DiffingExamplePatch::Tuple1(x)) => *b = x,
            (DiffingExample::Struct { a, .. }, DiffingExamplePatch::StructA(x)) => *a = x,
            (DiffingExample::Struct { b, .. }, DiffingExamplePatch::StructB(x)) => *b = x,
            _ => {}
        }
    }
}

#[test]
fn test_enum_diff() {
    let mut baseline = DiffingExample::Tuple(1.0, 0.0);
    let value = DiffingExample::Tuple(1.0, 1.0);

    let mut messages: Events = Vec::new();
    value.diff(&baseline, PathBuilder::default(), &mut messages);

    assert_eq!(messages.len(), 1);
    baseline.apply(DiffingExample::patch_event(&messages.pop().unwrap()).unwrap());
    assert_eq!(baseline, value);
}

#[test]
fn test_enum_switch_variant() {
    let mut baseline = DiffingExample::Unit;
    let value = DiffingExample::Struct { a: 1.0, b: 1.0 };

    let mut messages: Events = Vec::new();
    value.diff(&baseline, PathBuilder::default(), &mut messages);

    assert_eq!(messages.len(), 1);
    baseline.apply(DiffingExample::patch_event(&messages.pop().unwrap()).unwrap());
    assert_eq!(baseline, value);
}

#[test]
fn equal_values_push_no_event() {
    let a = StructDiff { a: 1.0, b: true };
    let mut events: Events = Vec::new();
    a.diff(&a.clone(), PathBuilder::default(), &mut events);
    assert!(events.is_empty());
}

#[test]
fn leaf_values_round_trip() {
    let mut events: Vec<NodeEventType<()>> = Vec::new();
    7u32.diff(&8, PathBuilder::default().with(3), &mut events);
    (-7i32).diff(&8, PathBuilder::default().with(4), &mut events);
    (1u64 << 40).diff(&8, PathBuilder::default().with(5), &mut events);
    (-(1i64 << 40)).diff(&8, PathBuilder::default().with(6).with(1), &mut events);
    assert_eq!(events.len(), 4);
    assert_eq!(u32::patch_event(&events[0]), Some(7));
    assert_eq!(i32::patch_event(&events[1]), Some(-7));
    assert_eq!(u64::patch_event(&events[2]), Some(1 << 40));
    assert_eq!(i64::patch_event(&events[3]), Some(-(1 << 40)));
    assert_eq!(bool::patch_event(&events[0]), None);
    let mut value = 8u32;
    <u32 as Patch<()>>::apply(&mut value, 7);
    assert_eq!(value, 7);
}

#[test]
fn patch_errors_say_what_is_wrong() {
    let data: ParamData<()> = ParamData::Bool(true);
    assert!(matches!(StructDiff::patch(&data, &[5]), Err(PatchError::InvalidPath)));
    assert!(matches!(StructDiff::patch(&data, &[0]), Err(PatchError::InvalidData)));
    assert!(matches!(StructDiff::patch(&data, &[1]), Ok(StructDiffPatch::B(true))));
    assert_eq!(u32::patch(&data, &[]), Err(PatchError::InvalidData));
}

#[test]
fn paths_hold_their_indices() {
    let empty = PathBuilder::default();
    let one = empty.with(7);
    let many = one.with(1).with(2).with(3).with(4).with(4_000_000_000);
    assert_eq!(one.build(), ParamPath::Single(7));
    assert_eq!(many.build(), ParamPath::Multi(vec![7, 1, 2, 3, 4, 4_000_000_000]));
    assert_eq!(empty.build(), ParamPath::Multi(vec![]));
    assert_eq!(ParamPath::Single(9).to_vec(), vec![9]);
}

#[test]
fn param_data_gives_value_back() {
    let data: ParamData<u8> = ParamData::from(Volume::Linear(F32Bits(1)));
    assert_eq!(Volume::try_from(&data), Ok(Volume::Linear(F32Bits(1))));
    assert_eq!(Option::<Volume>::try_from(&data), Ok(Some(Volume::Linear(F32Bits(1)))));
    let data: ParamData<u8> = ParamData::from(F64Bits(5));
    assert_eq!(F64Bits::try_from(&data), Ok(F64Bits(5)));
    assert_eq!(F32Bits::try_from(&data), Err(PatchError::InvalidData));
    let data: ParamData<u8> = ParamData::from(Vec2 { x: F32Bits(1), y: F32Bits(2) });
    assert_eq!(Vec2::try_from(&data), Ok(Vec2 { x: F32Bits(1), y: F32Bits(2) }));
    let v3 = Vec3 { x: F32Bits(1), y: F32Bits(2), z: F32Bits(3) };
    let data: ParamData<u8> = ParamData::from(v3);
    assert_eq!(Vec3::try_from(&data), Ok(v3));
    let data: ParamData<u8> = ParamData::from(None::<bool>);
    assert!(matches!(data, ParamData::NoData));
    assert_eq!(Option::<bool>::try_from(&data), Ok(None));
    assert_eq!(bool::try_from(&data), Err(PatchError::InvalidData));
    assert_eq!(<()>::try_from(&data), Ok(()));
    let data: ParamData<u8> = ParamData::opt_any(Some(9));
    assert_eq!(data.downcast_ref(), Some(&9));
    let data: ParamData<u8> = ParamData::opt_any(None);
    assert_eq!(data.downcast_ref(), None);
    let time = EventInstant::Samples(InstantSamples(4));
    let data: ParamData<u8> = ParamData::from(time);
    assert_eq!(EventInstant::try_from(&data), Ok(time));
    assert_eq!(InstantSamples::try_from(&data), Err(PatchError::InvalidData));
}

#[test]
fn custom_events_are_found_again() {
    let mut event = NodeEventType::custom(5u8);
    assert_eq!(event.downcast_ref(), Some(&5));
    *event.downcast_mut().unwrap() = 6;
    assert_eq!(event.downcast_ref(), Some(&6));
    let mut other: NodeEventType<u8> =
        NodeEventType::Param { data: ParamData::Bool(true), path: ParamPath::Single(0) };
    assert!(other.downcast_ref().is_none());
    assert!(other.downcast_mut().is_none());
}

fn bool_event(time: Option<i64>, value: bool) -> NodeEvent<u8> {
    NodeEvent {
        node_id: NodeID(1 << 32),
        time: time.map(|t| EventInstant::Samples(InstantSamples(t))),
        event: NodeEventType::Param { data: ParamData::Bool(value), path: ParamPath::Single(0) },
    }
}

fn custom_event(value: u8) -> NodeEvent<u8> {
    NodeEvent { node_id: NodeID(1 << 32), time: None, event: NodeEventType::custom(value) }
}

#[test]
fn drained_events_keep_their_order() {
    let mut list = ProcEvents::new(vec![custom_event(1), bool_event(Some(3), true), custom_event(2)]);
    assert_eq!(list.num_events(), 3);
    let events = list.drain_with_timestamps();
    assert_eq!(list.num_events(), 0);
    assert_eq!(events.len(), 3);
    assert_eq!(events[0].0.downcast_ref(), Some(&1));
    assert_eq!(events[0].1, None);
    assert_eq!(events[1].1, Some(EventInstant::Samples(InstantSamples(3))));
    assert_eq!(events[2].0.downcast_ref(), Some(&2));

    let mut list = ProcEvents::new(vec![custom_event(1), custom_event(2)]);
    let events = list.drain();
    assert_eq!(events[0].downcast_ref(), Some(&1));
    assert_eq!(events[1].downcast_ref(), Some(&2));
    assert!(list.drain().is_empty());
}

#[test]
fn drained_patches_skip_errors() {
    let mut list = ProcEvents::new(vec![
        bool_event(None, true),
        custom_event(9),
        bool_event(Some(7), false),
    ]);
    assert_eq!(
        list.drain_patches_with_timestamps::<bool>(),
        vec![(true, None), (false, Some(EventInstant::Samples(InstantSamples(7))))]
    );
    assert_eq!(list.num_events(), 0);
    let mut list = ProcEvents::new(vec![bool_event(None, true), bool_event(None, false)]);
    assert_eq!(list.drain_patches::<bool>(), vec![true, false]);
    let mut list = ProcEvents::new(vec![bool_event(None, true)]);
    assert!(list.drain_patches::<u32>().is_empty());
}

#[test]
fn notify_changes_with_its_id() {
    let mut a = Notify::new(1u8, 10);
    let b = a;
    assert!(a == b);
    a.set(1, 11);
    assert_eq!(*a.get(), 1);
    assert_eq!(a.id(), 11);
    assert!(a != b);
}

#[test]
fn notified_values_convert_to_data_and_back() {
    let data: ParamData<u8> = ParamData::from(Notify::new(7u32, 3));
    assert!(matches!(data, ParamData::U32(7)));
    let back = Notify::<u32>::try_from_data(&data, 4).unwrap();
    assert_eq!((*back.get(), back.id()), (7, 4));
    assert_eq!(Notify::<bool>::try_from_data(&data, 4), Err(PatchError::InvalidData));
    assert_eq!(Notify::<()>::try_from_data(&data, 4), Err(PatchError::InvalidData));
    let unit: ParamData<u8> = ParamData::from(Notify::new((), 3));
    assert!(matches!(unit, ParamData::NoData));
    let back = Notify::<()>::try_from_data(&unit, 5).unwrap();
    assert_eq!(back.id(), 5);
    assert_eq!(Notify::<u32>::try_from_data(&unit, 5), Err(PatchError::InvalidData));
    let volume = Volume::Linear(F32Bits(0.5f32.to_bits()));
    let data: ParamData<u8> = ParamData::from(Notify::new(volume, 1));
    assert!(matches!(data, ParamData::Volume(v) if v == volume));
    assert_eq!(*Notify::<Volume>::try_from_data(&data, 2).unwrap().get(), volume);
}
