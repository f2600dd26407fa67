//! Input operations, the bounded input queue and the relative-pointer touchpad mapping.

use std::collections::VecDeque;
use vstd::prelude::*;

use crate::model::DesktopConfig;

verus! {

pub const INPUT_QUEUE_CAPACITY: usize = 128;

#[derive(Clone, Copy, Debug, PartialEq, Eq, Hash, Structural)]
pub enum MouseButton {
    Left,
    Middle,
    Right,
}

#[derive(Clone, Copy, Debug, PartialEq, Eq, Hash, Structural)]
pub enum KeyCode {
    Scancode { code: u8, extended: bool },
    Unicode(char),
}

#[derive(Debug, Clone, PartialEq)]
pub enum InputOperation {
    PointerMove { x: u16, y: u16 },
    ButtonDown(MouseButton),
    ButtonUp(MouseButton),
    Wheel { vertical: bool, units: i16 },
    KeyDown(KeyCode),
    KeyUp(KeyCode),
    ClipboardText(String),
    RequestRemoteClipboard,
    Resize(DesktopConfig),
    Disconnect,
}

/// The index of the oldest pointer move in `q`, if any.
pub open spec fn first_pointer_move(q: Seq<InputOperation>) -> Option<int>
    decreases q.len(),
{
    if q.len() == 0 {
        None
    } else if q[0] is PointerMove {
        Some(0)
    } else {
        match first_pointer_move(q.drop_first()) {
            Some(i) => Some(i + 1),
            None => None,
        }
    }
}

pub proof fn lemma_first_pointer_move(q: Seq<InputOperation>)
    ensures
        match first_pointer_move(q) {
            Some(i) => 0 <= i < q.len() && q[i] is PointerMove && forall|j: int|
                0 <= j < i ==> !(q[j] is PointerMove),
            None => forall|j: int| 0 <= j < q.len() ==> !(#[trigger] q[j] is PointerMove),
        },
    decreases q.len(),
{
    if q.len() > 0 && !(q[0] is PointerMove) {
        lemma_first_pointer_move(q.drop_first());
        assert forall|j: int| 0 < j < q.len() implies q.drop_first()[j - 1] == q[j] by {}
    }
}

/// The queue and the answer after pushing `op` onto `q`: a pointer move right behind another
/// pointer move replaces it; a full queue drops its oldest pointer move to make room, and
/// hands the operation back when it holds none.
pub open spec fn queue_push(q: Seq<InputOperation>, op: InputOperation) -> (
    Seq<InputOperation>,
    Result<(), InputOperation>,
) {
    if q.len() > 0 && q.last() is PointerMove && op is PointerMove {
        (q.drop_last().push(op), Ok(()))
    } else if q.len() >= INPUT_QUEUE_CAPACITY {
        match first_pointer_move(q) {
            Some(k) => (q.remove(k).push(op), Ok(())),
            None => (q, Err(op)),
        }
    } else {
        (q.push(op), Ok(()))
    }
}

/// Whether an operation must reach the session as it was queued: all but pointer moves, which
/// only carry the latest cursor position.
pub open spec fn lasting(o: InputOperation) -> bool {
    !(o is PointerMove)
}

/// The operations of `q` that are not pointer moves, in order.
pub open spec fn lasting_operations(q: Seq<InputOperation>) -> Seq<InputOperation> {
    q.filter(|o: InputOperation| lasting(o))
}

/// Pushing never drops, reorders or repeats an operation that is not a pointer move: those of
/// the queue after a push are those before it, followed by the pushed operation when it is one
/// of them and was accepted. A refused push leaves the queue as it was.
pub proof fn law_push_keeps_lasting_operations(q: Seq<InputOperation>, op: InputOperation)
    ensures
        lasting_operations(queue_push(q, op).0) == if queue_push(q, op).1 is Ok && lasting(op) {
            lasting_operations(q).push(op)
        } else {
            lasting_operations(q)
        },
        queue_push(q, op).1 is Err ==> queue_push(q, op).0 == q && queue_push(q, op).1 == Err::<
            (),
            InputOperation,
        >(op),
{
    let p = |o: InputOperation| lasting(o);
    broadcast use Seq::lemma_filter_push;
    broadcast use Seq::filter_distributes_over_add;

    if q.len() > 0 && q.last() is PointerMove && op is PointerMove {
        assert(q =~= q.drop_last().push(q.last()));
        assert(q.filter(p) == q.drop_last().filter(p));
    } else if q.len() >= INPUT_QUEUE_CAPACITY {
        lemma_first_pointer_move(q);
        if let Some(k) = first_pointer_move(q) {
            let a = q.subrange(0, k);
            let b = q.subrange(k + 1, q.len() as int);
            assert(q.remove(k) =~= a + b);
            assert(q =~= a.push(q[k]) + b);
            assert(a.push(q[k]).filter(p) == a.filter(p));
            assert(q.filter(p) == a.filter(p) + b.filter(p));
            assert(q.remove(k).filter(p) == a.filter(p) + b.filter(p));
        }
    }
}

/// An accepted push leaves the pushed operation at the back of the queue, and two pointer
/// moves in a row take one place: the second replaces the first.
pub proof fn law_pushed_operation_is_last(q: Seq<InputOperation>, op: InputOperation)
    ensures
        queue_push(q, op).1 is Ok ==> queue_push(q, op).0.len() > 0 && queue_push(q, op).0.last()
            == op,
        q.len() > 0 && q.last() is PointerMove && op is PointerMove ==> queue_push(q, op).0
            == q.drop_last().push(op),
        q.len() <= INPUT_QUEUE_CAPACITY ==> queue_push(q, op).0.len() <= INPUT_QUEUE_CAPACITY,
{
    lemma_first_pointer_move(q);
}

/// Pending input operations, oldest first, at most `INPUT_QUEUE_CAPACITY` of them.
#[derive(Debug)]
pub struct InputQueue {
    queue: VecDeque<InputOperation>,
}

impl View for InputQueue {
    type V = Seq<InputOperation>;

    closed spec fn view(&self) -> Seq<InputOperation> {
        self.queue@
    }
}

impl Default for InputQueue {
    fn default() -> (r: Self)
        ensures
            r@ == Seq::<InputOperation>::empty(),
    {
        InputQueue::new()
    }
}

impl InputQueue {
    #[verifier::type_invariant]
    spec fn bounded(self) -> bool {
        self.queue@.len() <= INPUT_QUEUE_CAPACITY
    }

    pub fn new() -> (r: Self)
        ensures
            r@ == Seq::<InputOperation>::empty(),
    {
        InputQueue { queue: VecDeque::new() }
    }

    pub fn len(&self) -> (r: usize)
        ensures
            r == self@.len(),
            r <= INPUT_QUEUE_CAPACITY,
    {
        proof {
            use_type_invariant(self);
        }
        self.queue.len()
    }

    pub fn is_empty(&self) -> (r: bool)
        ensures
            r == (self@.len() == 0),
    {
        self.queue.len() == 0
    }

    pub fn push(&mut self, operation: InputOperation) -> (r: Result<(), InputOperation>)
        ensures
            (final(self)@, r) == queue_push(old(self)@, operation),
            final(self)@.len() <= INPUT_QUEUE_CAPACITY,
    {
        proof {
            use_type_invariant(&*self);
        }
        let mut queue = VecDeque::new();
        std::mem::swap(&mut queue, &mut self.queue);
        let r = push_onto(&mut queue, operation);
        self.queue = queue;
        r
    }

    pub fn pop(&mut self) -> (r: Option<InputOperation>)
        ensures
            old(self)@.len() == 0 ==> r is None && final(self)@ == old(self)@,
            old(self)@.len() > 0 ==> r == Some(old(self)@[0]) && final(self)@ == old(
                self,
            )@.drop_first(),
    {
        proof {
            use_type_invariant(&*self);
        }
        let mut queue = VecDeque::new();
        std::mem::swap(&mut queue, &mut self.queue);
        let r = queue.pop_front();
        self.queue = queue;
        r
    }
}

fn first_pointer_move_index(queue: &VecDeque<InputOperation>) -> (r: Option<usize>)
    ensures
        r matches Some(i) ==> first_pointer_move(queue@) == Some(i as int),
        r is None ==> first_pointer_move(queue@) is None,
{
    proof {
        lemma_first_pointer_move(queue@);
    }
    let n = queue.len();
    let mut i: usize = 0;
    while i < n
        invariant
            n == queue@.len(),
            i <= n,
            forall|j: int| 0 <= j < i ==> !(#[trigger] queue@[j] is PointerMove),
            match first_pointer_move(queue@) {
                Some(k) => 0 <= k < queue@.len() && queue@[k] is PointerMove && forall|j: int|
                    0 <= j < k ==> !(queue@[j] is PointerMove),
                None => forall|j: int| 0 <= j < queue@.len() ==> !(#[trigger] queue@[j] is PointerMove),
            },
        decreases n - i,
    {
        if let InputOperation::PointerMove { .. } = &queue[i] {
            proof {
                if let Some(k) = first_pointer_move(queue@) {
                    assert(k == i);
                }
            }
            return Some(i);
        }
        i = i + 1;
    }
    proof {
        if let Some(k) = first_pointer_move(queue@) {
            assert(queue@[k] is PointerMove);
        }
    }
    None
}

fn push_onto(queue: &mut VecDeque<InputOperation>, operation: InputOperation) -> (r: Result<(), InputOperation>)
requires
    old(queue)@.len() <= INPUT_QUEUE_CAPACITY,
ensures
    (final(queue)@, r) == queue_push(old(queue)@, operation),
    final(queue)@.len() <= INPUT_QUEUE_CAPACITY,
{
    let n = queue.len();
    let coalesce = n > 0 && match &queue[n - 1] {
        InputOperation::PointerMove { .. } => match &operation {
            InputOperation::PointerMove { .. } => true,
            _ => false,
        },
        _ => false,
    };
    if coalesce {
        let _ = queue.pop_back();
        queue.push_back(operation);
        return Ok(());
    }
    if n >= INPUT_QUEUE_CAPACITY {
        let found = first_pointer_move_index(queue);
        match found {
            Some(index) => {
                proof {
                    lemma_first_pointer_move(queue@);
                }
                let _ = queue.remove(index);
                queue.push_back(operation);
                return Ok(());
            },
            None => {
                return Err(operation);
            },
        }
    }
    queue.push_back(operation);
    Ok(())
}

/// Maps relative finger movement to an absolute cursor on the remote desktop.
#[derive(Debug)]
pub struct TouchpadMapper {
    remote_width: u16,
    remote_height: u16,
    cursor_x: i32,
    cursor_y: i32,
    pressed: bool,
}

/// `v` clamped into `lo..=hi`.
pub open spec fn clamp(v: int, lo: int, hi: int) -> int {
    if v < lo {
        lo
    } else if v > hi {
        hi
    } else {
        v
    }
}

impl TouchpadMapper {
    #[verifier::type_invariant]
    spec fn inside(self) -> bool {
        &&& self.remote_width >= 1
        &&& self.remote_height >= 1
        &&& 0 <= self.cursor_x < self.remote_width
        &&& 0 <= self.cursor_y < self.remote_height
    }

    /// The remote desktop is at least one pixel wide and high, and the cursor is on it.
    pub closed spec fn on_desktop(self) -> bool {
        self.inside()
    }

    pub closed spec fn width(self) -> int {
        self.remote_width as int
    }

    pub closed spec fn height(self) -> int {
        self.remote_height as int
    }

    pub closed spec fn cursor_x(self) -> int {
        self.cursor_x as int
    }

    pub closed spec fn cursor_y(self) -> int {
        self.cursor_y as int
    }

    pub closed spec fn dragging(self) -> bool {
        self.pressed
    }

    /// A mapper for a `remote_width` by `remote_height` desktop, cursor in the middle.
    pub fn new(remote_width: u16, remote_height: u16) -> (r: Self)
        ensures
            r.width() == if remote_width == 0 {
                1
            } else {
                remote_width as int
            },
            r.height() == if remote_height == 0 {
                1
            } else {
                remote_height as int
            },
            r.cursor_x() == remote_width / 2,
            r.cursor_y() == remote_height / 2,
            !r.dragging(),
            r.on_desktop(),
    {
        TouchpadMapper {
            remote_width: if remote_width == 0 {
                1
            } else {
                remote_width
            },
            remote_height: if remote_height == 0 {
                1
            } else {
                remote_height
            },
            cursor_x: (remote_width / 2) as i32,
            cursor_y: (remote_height / 2) as i32,
            pressed: false,
        }
    }

    /// The cursor position on the remote desktop.
    pub fn cursor(&self) -> (r: (i32, i32))
        ensures
            r.0 == self.cursor_x(),
            r.1 == self.cursor_y(),
            self.on_desktop(),
            self.width() >= 1 && self.height() >= 1,
            0 <= r.0 < self.width() && 0 <= r.1 < self.height(),
    {
        proof {
            use_type_invariant(self);
        }
        (self.cursor_x, self.cursor_y)
    }

    /// Follows a change of the remote desktop size, keeping the cursor on it.
    pub fn update_remote_size(&mut self, width: u16, height: u16)
        ensures
            final(self).width() == if width == 0 {
                1
            } else {
                width as int
            },
            final(self).height() == if height == 0 {
                1
            } else {
                height as int
            },
            final(self).cursor_x() == clamp(old(self).cursor_x(), 0, final(self).width() - 1),
            final(self).cursor_y() == clamp(old(self).cursor_y(), 0, final(self).height() - 1),
            final(self).cursor_x() == if old(self).cursor_x() < final(self).width() - 1 {
                old(self).cursor_x()
            } else {
                final(self).width() - 1
            },
            final(self).cursor_y() == if old(self).cursor_y() < final(self).height() - 1 {
                old(self).cursor_y()
            } else {
                final(self).height() - 1
            },
            final(self).dragging() == old(self).dragging(),
            final(self).on_desktop(),
    {
        proof {
            use_type_invariant(&*self);
        }
        let w: u16 = if width == 0 {
            1
        } else {
            width
        };
        let h: u16 = if height == 0 {
            1
        } else {
            height
        };
        let x = clamp_i32(self.cursor_x, 0, (w - 1) as i32);
        let y = clamp_i32(self.cursor_y, 0, (h - 1) as i32);
        *self = TouchpadMapper {
            remote_width: w,
            remote_height: h,
            cursor_x: x,
            cursor_y: y,
            pressed: self.pressed,
        };
    }

    /// Moves the cursor by a rounded finger movement and reports the new position.
    pub fn move_by(&mut self, dx: i32, dy: i32) -> (r: InputOperation)
        requires
            i32::MIN <= old(self).cursor_x() + dx <= i32::MAX,
            i32::MIN <= old(self).cursor_y() + dy <= i32::MAX,
        ensures
            final(self).cursor_x() == clamp(old(self).cursor_x() + dx, 0, old(self).width() - 1),
            final(self).cursor_y() == clamp(old(self).cursor_y() + dy, 0, old(self).height() - 1),
            final(self).width() == old(self).width(),
            final(self).height() == old(self).height(),
            final(self).dragging() == old(self).dragging(),
            final(self).on_desktop(),
            r == (InputOperation::PointerMove {
                x: final(self).cursor_x() as u16,
                y: final(self).cursor_y() as u16,
            }),
    {
        proof {
            use_type_invariant(&*self);
        }
        let x = clamp_i32(self.cursor_x + dx, 0, (self.remote_width - 1) as i32);
        let y = clamp_i32(self.cursor_y + dy, 0, (self.remote_height - 1) as i32);
        *self = TouchpadMapper {
            remote_width: self.remote_width,
            remote_height: self.remote_height,
            cursor_x: x,
            cursor_y: y,
            pressed: self.pressed,
        };
        InputOperation::PointerMove { x: x as u16, y: y as u16 }
    }

    /// A left click.
    pub fn tap(&mut self) -> (r: [InputOperation; 2])
        ensures
            r@ == seq![
                InputOperation::ButtonDown(MouseButton::Left),
                InputOperation::ButtonUp(MouseButton::Left),
            ],
            *final(self) == *old(self),
    {
        [
            InputOperation::ButtonDown(MouseButton::Left),
            InputOperation::ButtonUp(MouseButton::Left),
        ]
    }

    /// A right click.
    pub fn long_press(&mut self) -> (r: [InputOperation; 2])
        ensures
            r@ == seq![
                InputOperation::ButtonDown(MouseButton::Right),
                InputOperation::ButtonUp(MouseButton::Right),
            ],
            *final(self) == *old(self),
    {
        [
            InputOperation::ButtonDown(MouseButton::Right),
            InputOperation::ButtonUp(MouseButton::Right),
        ]
    }

    /// Presses the left button for a drag.
    pub fn begin_drag(&mut self) -> (r: InputOperation)
        ensures
            final(self).dragging(),
            final(self).cursor_x() == old(self).cursor_x(),
            final(self).cursor_y() == old(self).cursor_y(),
            final(self).width() == old(self).width(),
            final(self).height() == old(self).height(),
            final(self).on_desktop(),
            r == InputOperation::ButtonDown(MouseButton::Left),
    {
        proof {
            use_type_invariant(&*self);
        }
        self.pressed = true;
        InputOperation::ButtonDown(MouseButton::Left)
    }

    /// Releases the left button if a drag is in progress.
    pub fn end_drag(&mut self) -> (r: Option<InputOperation>)
        ensures
            !final(self).dragging(),
            final(self).cursor_x() == old(self).cursor_x(),
            final(self).cursor_y() == old(self).cursor_y(),
            final(self).width() == old(self).width(),
            final(self).height() == old(self).height(),
            final(self).on_desktop(),
            r == if old(self).dragging() {
                Some(InputOperation::ButtonUp(MouseButton::Left))
            } else {
                None
            },
    {
        proof {
            use_type_invariant(&*self);
        }
        if self.pressed {
            self.pressed = false;
            Some(InputOperation::ButtonUp(MouseButton::Left))
        } else {
            None
        }
    }

    /// A vertical wheel movement.
    pub fn scroll(&self, units: i16) -> (r: InputOperation)
        ensures
            r == (InputOperation::Wheel { vertical: true, units }),
    {
        InputOperation::Wheel { vertical: true, units }
    }
}

fn clamp_i32(v: i32, lo: i32, hi: i32) -> (r: i32)
    requires
        lo <= hi,
    ensures
        r == clamp(v as int, lo as int, hi as int),
{
    if v < lo {
        lo
    } else if v > hi {
        hi
    } else {
        v
    }
}

} // verus!
