//! The virtual multitouch screen, mapped onto the virtual monitor.
use vstd::prelude::*;

use crate::pen::{at_least_one, stays_on};
use crate::protocol::{TOUCH_CANCEL, TOUCH_DOWN, TOUCH_MOVE, TOUCH_UP};
use crate::uinput::{abs, axis_value, creation, key, key_held, key_held_in_a_row, may_send, syn};
use crate::uinput::{calls, creation_calls, emit, sync, Axis, Call, InputEvent, Ioctl, Step};
use crate::uinput::{
    ABS_MT_POSITION_X, ABS_MT_POSITION_Y, ABS_MT_PRESSURE, ABS_MT_SLOT, ABS_MT_TOUCH_MAJOR,
    ABS_MT_TRACKING_ID, ABS_X, ABS_Y, AXIS_MAX, BTN_TOUCH, EV_ABS, EV_KEY, INPUT_PROP_DIRECT,
    MT_SLOTS, PRESSURE_MAX,
};

verus! {

/// One finger sample on the device's integer axes.
#[derive(Clone, Copy, Debug, PartialEq, Eq, Structural)]
pub struct TouchInput {
    pub action: u8,
    pub id: u8,
    pub x: i32,
    pub y: i32,
    pub pressure: i32,
    pub major: i32,
}

/// The fingers on the screen: which slot each one has, and the tracking number to hand out next.
pub struct Touch {
    slots: [Option<u8>; 10],
    next_tracking_id: i32,
}

/// What the screen remembers: the tablet's id for the finger in each slot, and the next number.
#[verifier::ext_equal]
pub struct Fingers {
    pub slots: Seq<Option<u8>>,
    pub next_id: int,
}

impl View for Touch {
    type V = Fingers;

    closed spec fn view(&self) -> Fingers {
        Fingers { slots: self.slots@, next_id: self.next_tracking_id as int }
    }
}

/// Whether slot `i` is the first one with the given content.
pub open spec fn is_first(slots: Seq<Option<u8>>, content: Option<u8>, i: int) -> bool {
    &&& 0 <= i < slots.len()
    &&& slots[i] == content
    &&& forall|k: int| 0 <= k < i ==> slots[k] != content
}

/// The first slot with the given content, if there is one.
pub open spec fn first_slot(slots: Seq<Option<u8>>, content: Option<u8>) -> Option<int> {
    if exists|i: int| is_first(slots, content, i) {
        Some(choose|i: int| is_first(slots, content, i))
    } else {
        None
    }
}

/// The slot of a finger: the one it has, else, for a finger that comes down, the first free one.
pub open spec fn slot_of(slots: Seq<Option<u8>>, id: u8, coming_down: bool) -> Option<int> {
    if first_slot(slots, Some(id)) is Some {
        first_slot(slots, Some(id))
    } else if coming_down {
        first_slot(slots, None)
    } else {
        None
    }
}

/// Whether no finger is on the screen.
pub open spec fn is_empty(slots: Seq<Option<u8>>) -> bool {
    forall|i: int| 0 <= i < slots.len() ==> slots[i] is None
}

/// Whether an action reports a position.
pub open spec fn is_contact(action: u8) -> bool {
    action == TOUCH_DOWN || action == TOUCH_MOVE
}

/// Whether an action takes the finger away.
pub open spec fn is_lift(action: u8) -> bool {
    action == TOUCH_UP || action == TOUCH_CANCEL
}

/// The report of a finger in `slot`.
pub open spec fn contact_report(f: Fingers, e: TouchInput, slot: int) -> Seq<InputEvent> {
    seq![abs(ABS_MT_SLOT, slot as i32)] + (if e.action == TOUCH_DOWN {
        seq![abs(ABS_MT_TRACKING_ID, f.next_id as i32)]
    } else {
        seq![]
    }) + seq![
        abs(ABS_MT_POSITION_X, e.x),
        abs(ABS_MT_POSITION_Y, e.y),
        abs(ABS_MT_PRESSURE, at_least_one(e.pressure)),
        abs(ABS_MT_TOUCH_MAJOR, e.major),
    ] + (if slot == 0 || is_empty(f.slots) {
        seq![abs(ABS_X, e.x), abs(ABS_Y, e.y)]
    } else {
        seq![]
    }) + (if is_empty(f.slots) {
        seq![key(BTN_TOUCH, 1)]
    } else {
        seq![]
    }) + seq![syn()]
}

/// The report of a finger that leaves `slot`.
pub open spec fn lift_report(f: Fingers, slot: int) -> Seq<InputEvent> {
    seq![abs(ABS_MT_SLOT, slot as i32), abs(ABS_MT_TRACKING_ID, (-1) as i32)] + (if is_empty(
        f.slots.update(slot, None),
    ) {
        seq![key(BTN_TOUCH, 0)]
    } else {
        seq![]
    }) + seq![syn()]
}

/// Everything the kernel is told on a sample.
pub open spec fn touch_events(f: Fingers, e: TouchInput) -> Seq<InputEvent> {
    if is_contact(e.action) {
        match slot_of(f.slots, e.id, e.action == TOUCH_DOWN) {
            Some(slot) => contact_report(f, e, slot),
            None => seq![],
        }
    } else if is_lift(e.action) {
        match slot_of(f.slots, e.id, false) {
            Some(slot) => lift_report(f, slot),
            None => seq![],
        }
    } else {
        seq![]
    }
}

/// What the screen remembers after a sample.
pub open spec fn touch_next(f: Fingers, e: TouchInput) -> Fingers {
    if is_contact(e.action) {
        match slot_of(f.slots, e.id, e.action == TOUCH_DOWN) {
            Some(slot) => if e.action == TOUCH_DOWN {
                Fingers {
                    slots: f.slots.update(slot, Some(e.id)),
                    next_id: (f.next_id + 1) % 0x1_0000,
                }
            } else {
                f
            },
            None => f,
        }
    } else if is_lift(e.action) {
        match slot_of(f.slots, e.id, false) {
            Some(slot) => Fingers { slots: f.slots.update(slot, None), next_id: f.next_id },
            None => f,
        }
    } else {
        f
    }
}

/// The events that lift the fingers of the first `n` slots.
pub open spec fn release_events(slots: Seq<Option<u8>>, n: int) -> Seq<InputEvent>
    decreases n,
{
    if n <= 0 {
        seq![]
    } else {
        release_events(slots, n - 1) + (if slots[n - 1] is Some {
            seq![abs(ABS_MT_SLOT, (n - 1) as i32), abs(ABS_MT_TRACKING_ID, (-1) as i32)]
        } else {
            seq![]
        })
    }
}

/// Everything the kernel is told when all fingers are lifted.
pub open spec fn release_report(slots: Seq<Option<u8>>) -> Seq<InputEvent> {
    release_events(slots, slots.len() as int) + seq![key(BTN_TOUCH, 0), syn()]
}

/// The axes of the touch screen.
pub open spec fn touch_axes(res_x: i32, res_y: i32) -> Seq<Axis> {
    seq![
        Axis { code: ABS_X, min: 0, max: AXIS_MAX, resolution: res_x },
        Axis { code: ABS_Y, min: 0, max: AXIS_MAX, resolution: res_y },
        Axis { code: ABS_MT_SLOT, min: 0, max: (MT_SLOTS - 1) as i32, resolution: 0 },
        Axis { code: ABS_MT_TRACKING_ID, min: 0, max: 65535, resolution: 0 },
        Axis { code: ABS_MT_POSITION_X, min: 0, max: AXIS_MAX, resolution: res_x },
        Axis { code: ABS_MT_POSITION_Y, min: 0, max: AXIS_MAX, resolution: res_y },
        Axis { code: ABS_MT_PRESSURE, min: 0, max: PRESSURE_MAX, resolution: 0 },
        Axis { code: ABS_MT_TOUCH_MAJOR, min: 0, max: AXIS_MAX, resolution: 0 },
    ]
}

/// What the touch screen can do.
pub open spec fn touch_steps(res_x: i32, res_y: i32) -> Seq<Step> {
    seq![
        Step::Event(EV_KEY),
        Step::Event(EV_ABS),
        Step::Key(BTN_TOUCH),
        Step::Property(INPUT_PROP_DIRECT),
    ] + touch_axes(res_x, res_y).map_values(|a: Axis| Step::Absolute(a))
}

/// The calls that create the touch screen.
pub open spec fn touch_creation(res_x: i32, res_y: i32) -> Seq<Call> {
    creation(vstd::utf8::encode_utf8("TabScreen Touch"@), 0x0002, touch_steps(res_x, res_y))
}

/// Whether the memory of a screen is sound: ten slots, no finger in two of them, and a tracking
/// number of sixteen bits.
pub open spec fn sound(f: Fingers) -> bool {
    &&& f.slots.len() == MT_SLOTS
    &&& 0 <= f.next_id <= 0xffff
    &&& forall|i: int, j: int|
        0 <= i < j < f.slots.len() && f.slots[i] is Some ==> f.slots[i] != f.slots[j]
}

/// A screen that no finger touches.
pub open spec fn untouched_screen() -> Fingers {
    Fingers { slots: Seq::new(MT_SLOTS as nat, |i: int| None::<u8>), next_id: 1 }
}

impl Touch {
    #[verifier::type_invariant]
    spec fn inv(self) -> bool {
        sound(Fingers { slots: self.slots@, next_id: self.next_tracking_id as int })
    }

    /// A screen that no finger touches.
    pub fn new_touchscreen() -> (r: Self)
        ensures
            r@ == untouched_screen(),
            sound(r@),
    {
        let r = Touch {
            slots: [None, None, None, None, None, None, None, None, None, None],
            next_tracking_id: 1,
        };
        assert(r@.slots =~= Seq::new(MT_SLOTS as nat, |i: int| None::<u8>));
        r
    }

    /// The calls that create the touch screen; the resolutions are in axis units per millimetre.
    pub fn setup(res_x: i32, res_y: i32) -> (r: Vec<Ioctl>)
        ensures
            calls(r@) == touch_creation(res_x, res_y),
    {
        let mut steps: Vec<Step> = Vec::new();
        steps.push(Step::Event(EV_KEY));
        steps.push(Step::Event(EV_ABS));
        steps.push(Step::Key(BTN_TOUCH));
        steps.push(Step::Property(INPUT_PROP_DIRECT));
        steps.push(
            Step::Absolute(Axis { code: ABS_X, min: 0, max: AXIS_MAX, resolution: res_x }),
        );
        steps.push(
            Step::Absolute(Axis { code: ABS_Y, min: 0, max: AXIS_MAX, resolution: res_y }),
        );
        steps.push(
            Step::Absolute(
                Axis { code: ABS_MT_SLOT, min: 0, max: MT_SLOTS as i32 - 1, resolution: 0 },
            ),
        );
        steps.push(
            Step::Absolute(Axis { code: ABS_MT_TRACKING_ID, min: 0, max: 65535, resolution: 0 }),
        );
        steps.push(
            Step::Absolute(
                Axis { code: ABS_MT_POSITION_X, min: 0, max: AXIS_MAX, resolution: res_x },
            ),
        );
        steps.push(
            Step::Absolute(
                Axis { code: ABS_MT_POSITION_Y, min: 0, max: AXIS_MAX, resolution: res_y },
            ),
        );
        steps.push(
            Step::Absolute(
                Axis { code: ABS_MT_PRESSURE, min: 0, max: PRESSURE_MAX, resolution: 0 },
            ),
        );
        steps.push(
            Step::Absolute(
                Axis { code: ABS_MT_TOUCH_MAJOR, min: 0, max: AXIS_MAX, resolution: 0 },
            ),
        );
        assert(steps@ =~= touch_steps(res_x, res_y));
        creation_calls("TabScreen Touch".as_bytes(), 0x0002, &steps)
    }

    /// The first slot with the given content.
    fn position(&self, content: Option<u8>) -> (r: Option<usize>)
        ensures
            match r {
                Some(i) => is_first(self@.slots, content, i as int) && first_slot(
                    self@.slots,
                    content,
                ) == Some(i as int),
                None => first_slot(self@.slots, content) is None,
            },
    {
        let mut i: usize = 0;
        while i < MT_SLOTS
            invariant
                i <= MT_SLOTS,
                forall|k: int| 0 <= k < i ==> self@.slots[k] != content,
            decreases MT_SLOTS - i,
        {
            let same = match (self.slots[i], content) {
                (Some(a), Some(b)) => a == b,
                (None, None) => true,
                _ => false,
            };
            if same {
                proof {
                    assert(is_first(self@.slots, content, i as int));
                    let c = choose|c: int| is_first(self@.slots, content, c);
                    assert(c == i) by {
                        if c < i {
                        } else if c > i {
                        }
                    }
                }
                return Some(i);
            }
            i = i + 1;
        }
        None
    }

    /// The slot of a finger; one that comes down takes the first free slot if it has none.
    fn slot_for(&mut self, id: u8, allocate: bool) -> (r: Option<usize>)
        ensures
            final(self)@.next_id == old(self)@.next_id,
            match r {
                Some(i) => {
                    &&& i < MT_SLOTS
                    &&& slot_of(old(self)@.slots, id, allocate) == Some(i as int)
                    &&& final(self)@.slots == old(self)@.slots.update(i as int, Some(id))
                    &&& !allocate ==> final(self)@.slots == old(self)@.slots
                },
                None => {
                    &&& slot_of(old(self)@.slots, id, allocate) is None
                    &&& final(self)@.slots == old(self)@.slots
                },
            },
    {
        proof {
            use_type_invariant(&*self);
        }
        match self.position(Some(id)) {
            Some(i) => {
                assert(self@.slots.update(i as int, Some(id)) =~= self@.slots);
                return Some(i);
            },
            None => {},
        }
        if allocate {
            match self.position(None) {
                Some(i) => {
                    let ghost before = self.slots@;
                    proof {
                        assert forall|k: int| 0 <= k < MT_SLOTS implies before[k] != Some(id) by {
                            if before[k] == Some(id) {
                                lemma_some_first(before, Some(id), k);
                            }
                        }
                    }
                    self.slots[i] = Some(id);
                    assert(self.slots@ =~= before.update(i as int, Some(id)));
                    return Some(i);
                },
                None => {
                    return None;
                },
            }
        }
        None
    }

    /// Whether no finger is on the screen.
    fn none_active(&self) -> (r: bool)
        ensures
            r == is_empty(self@.slots),
    {
        let mut i: usize = 0;
        while i < MT_SLOTS
            invariant
                i <= MT_SLOTS,
                forall|k: int| 0 <= k < i ==> self@.slots[k] is None,
            decreases MT_SLOTS - i,
        {
            if self.slots[i].is_some() {
                return false;
            }
            i = i + 1;
        }
        true
    }

    /// Takes one sample and returns the events that the kernel is told.
    pub fn handle(&mut self, e: &TouchInput) -> (out: Vec<InputEvent>)
        ensures
            out@ == touch_events(old(self)@, *e),
            final(self)@ == touch_next(old(self)@, *e),
            sound(old(self)@),
            sound(final(self)@),
    {
        proof {
            use_type_invariant(&*self);
        }
        let mut out: Vec<InputEvent> = Vec::new();
        if e.action == TOUCH_DOWN || e.action == TOUCH_MOVE {
            let was_empty = self.none_active();
            match self.slot_for(e.id, e.action == TOUCH_DOWN) {
                Some(slot) => {
                    emit(&mut out, EV_ABS, ABS_MT_SLOT, slot as i32);
                    if e.action == TOUCH_DOWN {
                        proof {
                            use_type_invariant(&*self);
                        }
                        let tid: i32 = self.next_tracking_id;
                        self.next_tracking_id = (tid + 1) % 0x1_0000;
                        emit(&mut out, EV_ABS, ABS_MT_TRACKING_ID, tid);
                    }
                    let pressure: i32 = if e.pressure < 1 {
                        1
                    } else {
                        e.pressure
                    };
                    emit(&mut out, EV_ABS, ABS_MT_POSITION_X, e.x);
                    emit(&mut out, EV_ABS, ABS_MT_POSITION_Y, e.y);
                    emit(&mut out, EV_ABS, ABS_MT_PRESSURE, pressure);
                    emit(&mut out, EV_ABS, ABS_MT_TOUCH_MAJOR, e.major);
                    if slot == 0 || was_empty {
                        emit(&mut out, EV_ABS, ABS_X, e.x);
                        emit(&mut out, EV_ABS, ABS_Y, e.y);
                    }
                    if was_empty {
                        emit(&mut out, EV_KEY, BTN_TOUCH, 1);
                    }
                    sync(&mut out);
                    assert(out@ =~= contact_report(old(self)@, *e, slot as int));
                },
                None => {},
            }
        } else if e.action == TOUCH_UP || e.action == TOUCH_CANCEL {
            match self.slot_for(e.id, false) {
                Some(slot) => {
                    proof {
                        use_type_invariant(&*self);
                    }
                    self.slots[slot] = None;
                    assert(self@.slots =~= old(self)@.slots.update(slot as int, None));
                    let none_left = self.none_active();
                    emit(&mut out, EV_ABS, ABS_MT_SLOT, slot as i32);
                    emit(&mut out, EV_ABS, ABS_MT_TRACKING_ID, -1);
                    if none_left {
                        emit(&mut out, EV_KEY, BTN_TOUCH, 0);
                    }
                    sync(&mut out);
                    assert(out@ =~= lift_report(old(self)@, slot as int));
                },
                None => {},
            }
        }
        out
    }

    /// Lifts every finger.
    pub fn release_all(&mut self) -> (out: Vec<InputEvent>)
        ensures
            out@ == release_report(old(self)@.slots),
            sound(old(self)@),
            sound(final(self)@),
            is_empty(final(self)@.slots),
            final(self)@.next_id == old(self)@.next_id,
            final(self)@.slots.len() == MT_SLOTS,
    {
        proof {
            use_type_invariant(&*self);
        }
        let ghost before = self@.slots;
        let mut out: Vec<InputEvent> = Vec::new();
        let mut slot: usize = 0;
        while slot < MT_SLOTS
            invariant
                slot <= MT_SLOTS,
                before.len() == MT_SLOTS,
                self@.next_id == old(self)@.next_id,
                self@.slots.len() == MT_SLOTS,
                forall|k: int| 0 <= k < slot ==> self@.slots[k] is None,
                forall|k: int| slot <= k < MT_SLOTS ==> self@.slots[k] == before[k],
                out@ == release_events(before, slot as int),
            decreases MT_SLOTS - slot,
        {
            proof {
                use_type_invariant(&*self);
            }
            if self.slots[slot].is_some() {
                self.slots[slot] = None;
                emit(&mut out, EV_ABS, ABS_MT_SLOT, slot as i32);
                emit(&mut out, EV_ABS, ABS_MT_TRACKING_ID, -1);
            }
            slot = slot + 1;
            assert(out@ =~= release_events(before, slot as int));
        }
        emit(&mut out, EV_KEY, BTN_TOUCH, 0);
        sync(&mut out);
        assert(out@ =~= release_report(before));
        out
    }
}

/// A content that occurs has a first slot.
proof fn lemma_some_first(slots: Seq<Option<u8>>, content: Option<u8>, k: int)
    requires
        0 <= k < slots.len(),
        slots[k] == content,
    ensures
        first_slot(slots, content) is Some,
    decreases k,
{
    if forall|j: int| 0 <= j < k ==> slots[j] != content {
        assert(is_first(slots, content, k));
    } else {
        let j = choose|j: int| 0 <= j < k && slots[j] == content;
        lemma_some_first(slots, content, j);
    }
}

/// What the kernel knows of the fingers: the slot that events speak of, and the tracking number in
/// each slot, which is -1 where there is no finger.
#[verifier::ext_equal]
pub struct Contacts {
    pub slot: int,
    pub ids: Seq<int>,
}

/// The kernel's view after one event.
pub open spec fn contacts_step(c: Contacts, e: InputEvent) -> Contacts {
    if e.type_ == EV_ABS && e.code == ABS_MT_SLOT {
        Contacts { slot: e.value as int, ids: c.ids }
    } else if e.type_ == EV_ABS && e.code == ABS_MT_TRACKING_ID {
        Contacts { slot: c.slot, ids: c.ids.update(c.slot, e.value as int) }
    } else {
        c
    }
}

/// The kernel's view after the first `n` events.
pub open spec fn contacts_after(c: Contacts, events: Seq<InputEvent>, n: nat) -> Contacts
    decreases n,
{
    if n == 0 {
        c
    } else {
        contacts_step(contacts_after(c, events, (n - 1) as nat), events[n - 1])
    }
}

/// The kernel's view after all of `events`.
pub open spec fn contacts_replayed(c: Contacts, events: Seq<InputEvent>) -> Contacts {
    contacts_after(c, events, events.len())
}

proof fn lemma_contacts_prefix(c: Contacts, a: Seq<InputEvent>, b: Seq<InputEvent>, n: nat)
    requires
        n <= a.len(),
    ensures
        contacts_after(c, a + b, n) == contacts_after(c, a, n),
    decreases n,
{
    if n > 0 {
        lemma_contacts_prefix(c, a, b, (n - 1) as nat);
    }
}

proof fn lemma_contacts_suffix(c: Contacts, a: Seq<InputEvent>, b: Seq<InputEvent>, n: nat)
    requires
        n <= b.len(),
    ensures
        contacts_after(c, a + b, a.len() + n) == contacts_after(contacts_replayed(c, a), b, n),
    decreases n,
{
    if n == 0 {
        lemma_contacts_prefix(c, a, b, a.len());
    } else {
        lemma_contacts_suffix(c, a, b, (n - 1) as nat);
    }
}

/// Replaying two reports in a row is replaying the second on what the first left.
pub proof fn contacts_in_a_row(c: Contacts, a: Seq<InputEvent>, b: Seq<InputEvent>)
    ensures
        contacts_replayed(c, a + b) == contacts_replayed(contacts_replayed(c, a), b),
{
    lemma_contacts_suffix(c, a, b, b.len());
}

/// Whether the kernel and the server agree: the same slots hold a finger, and the touch key is
/// down exactly while there is one.
pub open spec fn contacts_match(f: Fingers, c: Contacts, touch_key: bool) -> bool {
    &&& c.ids.len() == MT_SLOTS
    &&& forall|i: int| 0 <= i < MT_SLOTS ==> ((#[trigger] c.ids[i] == -1) <==> f.slots[i] is None)
    &&& touch_key == !is_empty(f.slots)
}

proof fn lemma_contact_replayed(f: Fingers, e: TouchInput, slot: int, c: Contacts, touch_key: bool)
    requires
        0 <= slot < MT_SLOTS,
        0 <= f.next_id <= 0xffff,
        c.ids.len() == MT_SLOTS,
    ensures
        contacts_replayed(c, contact_report(f, e, slot)).ids == (if e.action == TOUCH_DOWN {
            c.ids.update(slot, f.next_id)
        } else {
            c.ids
        }),
        key_held(touch_key, contact_report(f, e, slot), BTN_TOUCH) == (touch_key || is_empty(
            f.slots,
        )),
{
    reveal_with_fuel(contacts_after, 6);
    reveal_with_fuel(crate::uinput::key_after, 6);
    let p1 = seq![abs(ABS_MT_SLOT, slot as i32)];
    let p2 = if e.action == TOUCH_DOWN {
        seq![abs(ABS_MT_TRACKING_ID, f.next_id as i32)]
    } else {
        seq![]
    };
    let p3 = seq![
        abs(ABS_MT_POSITION_X, e.x),
        abs(ABS_MT_POSITION_Y, e.y),
        abs(ABS_MT_PRESSURE, at_least_one(e.pressure)),
        abs(ABS_MT_TOUCH_MAJOR, e.major),
    ];
    let p4 = if slot == 0 || is_empty(f.slots) {
        seq![abs(ABS_X, e.x), abs(ABS_Y, e.y)]
    } else {
        seq![]
    };
    let p5 = if is_empty(f.slots) {
        seq![key(BTN_TOUCH, 1)]
    } else {
        seq![]
    };
    contacts_in_a_row(c, p1, p2);
    contacts_in_a_row(c, p1 + p2, p3);
    contacts_in_a_row(c, p1 + p2 + p3, p4);
    contacts_in_a_row(c, p1 + p2 + p3 + p4, p5);
    contacts_in_a_row(c, p1 + p2 + p3 + p4 + p5, seq![syn()]);
    key_held_in_a_row(touch_key, p1, p2, BTN_TOUCH);
    key_held_in_a_row(touch_key, p1 + p2, p3, BTN_TOUCH);
    key_held_in_a_row(touch_key, p1 + p2 + p3, p4, BTN_TOUCH);
    key_held_in_a_row(touch_key, p1 + p2 + p3 + p4, p5, BTN_TOUCH);
    key_held_in_a_row(touch_key, p1 + p2 + p3 + p4 + p5, seq![syn()], BTN_TOUCH);
}

proof fn lemma_lift_replayed(f: Fingers, slot: int, c: Contacts, touch_key: bool)
    requires
        0 <= slot < MT_SLOTS,
        c.ids.len() == MT_SLOTS,
    ensures
        contacts_replayed(c, lift_report(f, slot)).ids == c.ids.update(slot, -1),
        key_held(touch_key, lift_report(f, slot), BTN_TOUCH) == (touch_key && !is_empty(
            f.slots.update(slot, None),
        )),
{
    reveal_with_fuel(contacts_after, 6);
    reveal_with_fuel(crate::uinput::key_after, 6);
}

/// A slot found for a finger is one of the ten, and is the finger's own or free.
proof fn lemma_slot_found(f: Fingers, id: u8, coming_down: bool)
    requires
        sound(f),
    ensures
        match slot_of(f.slots, id, coming_down) {
            Some(slot) => {
                &&& 0 <= slot < MT_SLOTS
                &&& f.slots[slot] == Some(id) || (coming_down && f.slots[slot] is None && forall|
                    k: int,
                |
                    0 <= k < MT_SLOTS ==> f.slots[k] != Some(id))
            },
            None => forall|k: int| 0 <= k < MT_SLOTS ==> f.slots[k] != Some(id),
        },
{
    assert forall|k: int| 0 <= k < MT_SLOTS && first_slot(f.slots, Some(id)) is None implies f.slots[k]
        != Some(id) by {
        if f.slots[k] == Some(id) {
            lemma_some_first(f.slots, Some(id), k);
        }
    }
}

/// A screen that no finger touches agrees with a kernel that has no finger in any slot.
pub proof fn new_screen_matches(f: Fingers, c: Contacts)
    requires
        f.slots == Seq::new(MT_SLOTS as nat, |i: int| None::<u8>),
        c.ids == Seq::new(MT_SLOTS as nat, |i: int| -1),
    ensures
        contacts_match(f, c, false),
        contacts_match(untouched_screen(), c, false),
        sound(untouched_screen()),
        untouched_screen().next_id == 1,
{
}

/// Whatever sample comes in, the memory stays sound.
pub proof fn memory_stays_sound(f: Fingers, e: TouchInput)
    requires
        sound(f),
    ensures
        sound(touch_next(f, e)),
{
    lemma_slot_found(f, e.id, e.action == TOUCH_DOWN);
    lemma_slot_found(f, e.id, false);
}

/// Whatever sample comes in, the kernel and the server go on agreeing about the fingers.
pub proof fn contacts_stay_matched(f: Fingers, e: TouchInput, c: Contacts, touch_key: bool)
    requires
        sound(f),
        contacts_match(f, c, touch_key),
    ensures
        contacts_match(
            touch_next(f, e),
            contacts_replayed(c, touch_events(f, e)),
            key_held(touch_key, touch_events(f, e), BTN_TOUCH),
        ),
{
    let next = touch_next(f, e);
    if is_contact(e.action) {
        lemma_slot_found(f, e.id, e.action == TOUCH_DOWN);
        match slot_of(f.slots, e.id, e.action == TOUCH_DOWN) {
            Some(slot) => {
                lemma_contact_replayed(f, e, slot, c, touch_key);
                if e.action == TOUCH_DOWN {
                    assert(next.slots[slot] is Some);
                } else {
                    assert(f.slots[slot] is Some);
                }
            },
            None => {},
        }
    } else if is_lift(e.action) {
        lemma_slot_found(f, e.id, false);
        match slot_of(f.slots, e.id, false) {
            Some(slot) => {
                lemma_lift_replayed(f, slot, c, touch_key);
                assert(f.slots[slot] is Some);
            },
            None => {},
        }
    }
}

proof fn lemma_released(slots: Seq<Option<u8>>, n: int, c: Contacts)
    requires
        0 <= n <= slots.len(),
        slots.len() == MT_SLOTS,
        c.ids.len() == MT_SLOTS,
        forall|i: int| 0 <= i < MT_SLOTS ==> ((#[trigger] c.ids[i] == -1) <==> slots[i] is None),
    ensures
        ({
            let after = contacts_replayed(c, release_events(slots, n));
            &&& after.ids.len() == MT_SLOTS
            &&& forall|i: int| 0 <= i < n ==> #[trigger] after.ids[i] == -1
            &&& forall|i: int| n <= i < MT_SLOTS ==> #[trigger] after.ids[i] == c.ids[i]
        }),
    decreases n,
{
    if n > 0 {
        lemma_released(slots, n - 1, c);
        let last = if slots[n - 1] is Some {
            seq![abs(ABS_MT_SLOT, (n - 1) as i32), abs(ABS_MT_TRACKING_ID, (-1) as i32)]
        } else {
            seq![]
        };
        contacts_in_a_row(c, release_events(slots, n - 1), last);
        reveal_with_fuel(contacts_after, 3);
    }
}

/// When all fingers are lifted, the kernel has none left in any slot and the touch key is up.
pub proof fn release_lifts_every_finger(f: Fingers, c: Contacts, touch_key: bool)
    requires
        sound(f),
        contacts_match(f, c, touch_key),
    ensures
        ({
            let after = contacts_replayed(c, release_report(f.slots));
            &&& after.ids.len() == MT_SLOTS
            &&& forall|i: int| 0 <= i < MT_SLOTS ==> #[trigger] after.ids[i] == -1
            &&& !key_held(touch_key, release_report(f.slots), BTN_TOUCH)
        }),
{
    lemma_released(f.slots, MT_SLOTS as int, c);
    let tail = seq![key(BTN_TOUCH, 0), syn()];
    contacts_in_a_row(c, release_events(f.slots, MT_SLOTS as int), tail);
    key_held_in_a_row(touch_key, release_events(f.slots, MT_SLOTS as int), tail, BTN_TOUCH);
    reveal_with_fuel(contacts_after, 3);
    reveal_with_fuel(crate::uinput::key_after, 3);
}

/// Whether a sample lies on the axes that the screen announces.
pub open spec fn on_axes(e: TouchInput) -> bool {
    &&& 0 <= e.x <= AXIS_MAX
    &&& 0 <= e.y <= AXIS_MAX
    &&& 0 <= e.pressure <= PRESSURE_MAX
    &&& 0 <= e.major <= AXIS_MAX
}

/// Every absolute value sent is on an axis that the screen announces and inside its range, but for
/// the tracking number -1 of a finger that is lifted.
pub proof fn values_stay_on_their_axes(f: Fingers, e: TouchInput, res_x: i32, res_y: i32)
    requires
        sound(f),
        on_axes(e),
    ensures
        forall|i: int|
            0 <= i < touch_events(f, e).len() ==> stays_on(
                #[trigger] touch_events(f, e)[i],
                touch_axes(res_x, res_y),
            ) || (is_lift(e.action) && touch_events(f, e)[i] == abs(
                ABS_MT_TRACKING_ID,
                (-1) as i32,
            )),
{
    lemma_slot_found(f, e.id, e.action == TOUCH_DOWN);
    lemma_slot_found(f, e.id, false);
    let axes = touch_axes(res_x, res_y);
    assert(axes[0].code == ABS_X && axes[1].code == ABS_Y && axes[2].code == ABS_MT_SLOT
        && axes[3].code == ABS_MT_TRACKING_ID && axes[4].code == ABS_MT_POSITION_X && axes[5].code
        == ABS_MT_POSITION_Y && axes[6].code == ABS_MT_PRESSURE && axes[7].code
        == ABS_MT_TOUCH_MAJOR);
}

/// The value of a multitouch axis in one slot after the first `n` events, where events speak of the
/// slot `cur` at first and the value was `before`.
pub open spec fn slot_axis_after(
    cur: int,
    before: int,
    events: Seq<InputEvent>,
    n: nat,
    code: u16,
    slot: int,
) -> int
    decreases n,
{
    if n == 0 {
        before
    } else {
        let e = events[n - 1];
        if e.type_ == EV_ABS && e.code == code && slot_spoken_of(cur, events, (n - 1) as nat)
            == slot {
            e.value as int
        } else {
            slot_axis_after(cur, before, events, (n - 1) as nat, code, slot)
        }
    }
}

/// The slot that events speak of after the first `n`.
pub open spec fn slot_spoken_of(cur: int, events: Seq<InputEvent>, n: nat) -> int
    decreases n,
{
    if n == 0 {
        cur
    } else {
        let e = events[n - 1];
        if e.type_ == EV_ABS && e.code == ABS_MT_SLOT {
            e.value as int
        } else {
            slot_spoken_of(cur, events, (n - 1) as nat)
        }
    }
}

/// The value of a multitouch axis in one slot after all of `events`.
pub open spec fn slot_axis(
    cur: int,
    before: int,
    events: Seq<InputEvent>,
    code: u16,
    slot: int,
) -> int {
    slot_axis_after(cur, before, events, events.len(), code, slot)
}

/// A finger is where the tablet says: after a sample of a finger that has a slot, the kernel has its
/// place, its pressure, but at least a little, and its size in that slot, and what it has in every
/// other slot stays as it was.
pub proof fn a_finger_is_where_the_tablet_says(
    f: Fingers,
    e: TouchInput,
    cur: int,
    before: int,
    slot: int,
    other: int,
)
    requires
        sound(f),
        e.action == TOUCH_DOWN || e.action == TOUCH_MOVE,
        slot_of(f.slots, e.id, e.action == TOUCH_DOWN) == Some(slot),
        other != slot,
    ensures
        ({
            let ev = touch_events(f, e);
            &&& slot_axis(cur, before, ev, ABS_MT_POSITION_X, slot) == e.x
            &&& slot_axis(cur, before, ev, ABS_MT_POSITION_Y, slot) == e.y
            &&& slot_axis(cur, before, ev, ABS_MT_TOUCH_MAJOR, slot) == e.major
            &&& e.pressure >= 1 ==> slot_axis(cur, before, ev, ABS_MT_PRESSURE, slot) == e.pressure
            &&& e.pressure < 1 ==> slot_axis(cur, before, ev, ABS_MT_PRESSURE, slot) == 1
            &&& slot_axis(cur, before, ev, ABS_MT_POSITION_X, other) == before
            &&& slot_axis(cur, before, ev, ABS_MT_POSITION_Y, other) == before
            &&& slot_axis(cur, before, ev, ABS_MT_TOUCH_MAJOR, other) == before
            &&& slot_axis(cur, before, ev, ABS_MT_PRESSURE, other) == before
        }),
{
    lemma_slot_found(f, e.id, e.action == TOUCH_DOWN);
    reveal_with_fuel(slot_axis_after, 11);
    reveal_with_fuel(slot_spoken_of, 11);
    let ev = touch_events(f, e);
    assert(ev == contact_report(f, e, slot));
    assert(ev[0] == abs(ABS_MT_SLOT, slot as i32));
}

/// The pointer of programs that know one finger only follows the finger in the first slot, and a
/// finger that comes down alone.
pub proof fn the_first_finger_is_the_pointer(f: Fingers, e: TouchInput, slot: int, x: int, y: int)
    requires
        sound(f),
        e.action == TOUCH_DOWN || e.action == TOUCH_MOVE,
        slot_of(f.slots, e.id, e.action == TOUCH_DOWN) == Some(slot),
    ensures
        ({
            let follows = slot == 0 || forall|i: int| 0 <= i < f.slots.len() ==> f.slots[i] is None;
            &&& axis_value(x, touch_events(f, e), ABS_X) == (if follows {
                e.x as int
            } else {
                x
            })
            &&& axis_value(y, touch_events(f, e), ABS_Y) == (if follows {
                e.y as int
            } else {
                y
            })
        }),
{
    lemma_slot_found(f, e.id, e.action == TOUCH_DOWN);
    reveal_with_fuel(crate::uinput::axis_after, 11);
}

/// A finger keeps its slot as long as it is on the screen, a new one takes a free slot, and one that
/// finds none free, or moves without having come down, is not reported.
pub proof fn fingers_keep_their_slots(f: Fingers, e: TouchInput, k: int)
    requires
        sound(f),
        0 <= k < MT_SLOTS,
    ensures
        f.slots[k] == Some(e.id) ==> slot_of(f.slots, e.id, true) == Some(k) && slot_of(
            f.slots,
            e.id,
            false,
        ) == Some(k),
        slot_of(f.slots, e.id, true) matches Some(s) ==> 0 <= s < MT_SLOTS && (f.slots[s] == Some(
            e.id,
        ) || f.slots[s] is None),
        slot_of(f.slots, e.id, false) matches Some(s) ==> 0 <= s < MT_SLOTS && f.slots[s] == Some(
            e.id,
        ),
        f.slots[k] is None ==> slot_of(f.slots, e.id, true) is Some,
        e.action == TOUCH_DOWN && slot_of(f.slots, e.id, true) is None ==> touch_events(f, e).len()
            == 0,
        e.action != TOUCH_DOWN && slot_of(f.slots, e.id, false) is None ==> touch_events(f, e).len()
            == 0,
{
    lemma_slot_found(f, e.id, true);
    lemma_slot_found(f, e.id, false);
    if f.slots[k] == Some(e.id) {
        lemma_some_first(f.slots, Some(e.id), k);
        let c = choose|c: int| is_first(f.slots, Some(e.id), c);
        assert(is_first(f.slots, Some(e.id), c));
        if c < k {
            assert(f.slots[c] != f.slots[k]);
        }
    }
    if f.slots[k] is None {
        lemma_some_first(f.slots, None, k);
    }
}

/// The screen remembers who touches it: a finger that comes down and finds a slot is remembered, one
/// that is lifted or cancelled is forgotten, and no sample changes what is remembered of another
/// finger.
pub proof fn the_screen_remembers_its_fingers(f: Fingers, e: TouchInput, other: u8)
    requires
        sound(f),
        other != e.id,
    ensures
        ({
            let g = touch_next(f, e);
            &&& e.action == TOUCH_DOWN && (f.slots.contains(None) || f.slots.contains(Some(e.id)))
                ==> g.slots.contains(Some(e.id))
            &&& e.action == TOUCH_UP || e.action == TOUCH_CANCEL ==> !g.slots.contains(Some(e.id))
            &&& e.action != TOUCH_DOWN && e.action != TOUCH_UP && e.action != TOUCH_CANCEL ==> g.slots
                == f.slots
            &&& forall|k: int|
                0 <= k < MT_SLOTS ==> (#[trigger] g.slots[k] == Some(other) <==> f.slots[k] == Some(
                    other,
                ))
        }),
{
    lemma_slot_found(f, e.id, true);
    lemma_slot_found(f, e.id, false);
    let g = touch_next(f, e);
    if e.action == TOUCH_DOWN {
        if f.slots.contains(None) {
            let k = choose|k: int| 0 <= k < f.slots.len() && f.slots[k] == None::<u8>;
            fingers_keep_their_slots(f, e, k);
        }
        if f.slots.contains(Some(e.id)) {
            let k = choose|k: int| 0 <= k < f.slots.len() && f.slots[k] == Some(e.id);
            fingers_keep_their_slots(f, e, k);
        }
        if slot_of(f.slots, e.id, true) is Some {
            assert(g.slots[slot_of(f.slots, e.id, true)->0] == Some(e.id));
        }
    } else if e.action == TOUCH_UP || e.action == TOUCH_CANCEL {
        if g.slots.contains(Some(e.id)) {
            let k = choose|k: int| 0 <= k < g.slots.len() && g.slots[k] == Some(e.id);
            assert(f.slots[k] == Some(e.id));
            fingers_keep_their_slots(f, e, k);
        }
    }
}

/// A finger that comes down gets a tracking number of its own: the one that is next, which counts up
/// and starts over after sixteen bits. Every other finger keeps its number, and so does this one while
/// it moves.
pub proof fn fingers_get_numbers(f: Fingers, e: TouchInput, c: Contacts, slot: int)
    requires
        sound(f),
        c.ids.len() == MT_SLOTS,
        e.action == TOUCH_DOWN || e.action == TOUCH_MOVE,
        slot_of(f.slots, e.id, e.action == TOUCH_DOWN) == Some(slot),
    ensures
        ({
            let after = contacts_replayed(c, touch_events(f, e));
            let g = touch_next(f, e);
            &&& e.action == TOUCH_DOWN ==> after.ids[slot] == f.next_id
            &&& e.action == TOUCH_DOWN ==> g.next_id == (if f.next_id == 0xffff {
                0
            } else {
                f.next_id + 1
            })
            &&& e.action == TOUCH_MOVE ==> after.ids == c.ids && g.next_id == f.next_id
            &&& forall|k: int|
                0 <= k < MT_SLOTS && k != slot ==> #[trigger] after.ids[k] == c.ids[k]
        }),
{
    lemma_slot_found(f, e.id, e.action == TOUCH_DOWN);
    lemma_contact_replayed(f, e, slot, c, false);
}

/// The kernel was told beforehand of everything that the screen sends.
pub proof fn the_screen_sends_what_was_announced(
    f: Fingers,
    e: TouchInput,
    res_x: i32,
    res_y: i32,
    i: int,
)
    requires
        0 <= i < touch_events(f, e).len(),
    ensures
        may_send(touch_steps(res_x, res_y), touch_events(f, e)[i]),
        touch_events(f, e).last() == syn(),
{
    let steps = touch_steps(res_x, res_y);
    let axes = touch_axes(res_x, res_y);
    assert(steps[0] == Step::Event(EV_KEY) && steps[1] == Step::Event(EV_ABS));
    assert(steps[2] == Step::Key(BTN_TOUCH));
    assert(steps[4] == Step::Absolute(axes[0]) && steps[5] == Step::Absolute(axes[1]));
    assert(steps[6] == Step::Absolute(axes[2]) && steps[7] == Step::Absolute(axes[3]));
    assert(steps[8] == Step::Absolute(axes[4]) && steps[9] == Step::Absolute(axes[5]));
    assert(steps[10] == Step::Absolute(axes[6]) && steps[11] == Step::Absolute(axes[7]));
    assert(forall|k: int| 0 <= k < 12 ==> steps.contains(#[trigger] steps[k]));
}

/// The axes of the screen have the resolutions and ranges that the tablet's size and abilities ask
/// for, and no axis is there twice.
pub proof fn the_screens_axes(res_x: i32, res_y: i32, i: int)
    requires
        0 <= i < touch_axes(res_x, res_y).len(),
    ensures
        ({
            let a = touch_axes(res_x, res_y)[i];
            let horizontal = a.code == ABS_X || a.code == ABS_MT_POSITION_X;
            let vertical = a.code == ABS_Y || a.code == ABS_MT_POSITION_Y;
            &&& a.min == 0
            &&& horizontal ==> (a.max, a.resolution) == (65535i32, res_x)
            &&& vertical ==> (a.max, a.resolution) == (65535i32, res_y)
            &&& !horizontal && !vertical ==> a.resolution == 0
            &&& a.code == ABS_MT_SLOT ==> a.max == 9
            &&& a.code == ABS_MT_TRACKING_ID || a.code == ABS_MT_TOUCH_MAJOR ==> a.max == 65535
            &&& a.code == ABS_MT_PRESSURE ==> a.max == 4095
            &&& forall|j: int|
                0 <= j < touch_axes(res_x, res_y).len() && j != i ==> (#[trigger] touch_axes(
                    res_x,
                    res_y,
                )[j]).code != a.code
        }),
{
}

} // verus!
