use vstd::prelude::*;

verus! {

/// Win32 message code of a key press.
pub const WM_KEYDOWN: u32 = 0x0100;

/// Win32 message code of a key release.
pub const WM_KEYUP: u32 = 0x0101;

/// Win32 message code of a key press while Alt is held.
pub const WM_SYSKEYDOWN: u32 = 0x0104;

/// Win32 message code of a key release while Alt is held.
pub const WM_SYSKEYUP: u32 = 0x0105;

/// Virtual-key code of either Ctrl key.
pub const VK_CONTROL: u32 = 0x11;

/// Virtual-key code of the right Ctrl key.
pub const VK_RCONTROL: u32 = 0xA3;

/// What the low-level keyboard hook is handed for one key event.
#[derive(Clone, Copy, Debug, PartialEq, Eq, Structural)]
pub struct KeyMessage {
    /// The hook code; the event is for the hook to look at when it is not
    /// negative.
    pub code: i32,
    /// The message: press or release, plain or with Alt.
    pub msg: u32,
    /// The virtual-key code.
    pub vk_code: u32,
    /// The event flags; bit 0 marks an extended key.
    pub flags: u32,
}

/// The event is one of the right Ctrl key: its own key code, or the Ctrl
/// code with the extended-key flag.
pub open spec fn is_right_ctrl(m: KeyMessage) -> bool {
    m.vk_code == VK_RCONTROL || (m.vk_code == VK_CONTROL && m.flags & 1 != 0)
}

/// The push-to-talk key goes down with this event.
pub open spec fn is_press(m: KeyMessage) -> bool {
    m.code >= 0 && is_right_ctrl(m) && (m.msg == WM_KEYDOWN || m.msg == WM_SYSKEYDOWN)
}

/// The push-to-talk key comes up with this event.
pub open spec fn is_release(m: KeyMessage) -> bool {
    m.code >= 0 && is_right_ctrl(m) && (m.msg == WM_KEYUP || m.msg == WM_SYSKEYUP)
}

/// The key state after `m`, when it was `down` before.
pub open spec fn next_down(down: bool, m: KeyMessage) -> bool {
    if is_press(m) {
        true
    } else if is_release(m) {
        false
    } else {
        down
    }
}

/// The state of the push-to-talk key (right Ctrl), as the keyboard hook
/// tracks it: the hook reports a press only when the key was up, and a
/// release only when it was down, so that the key's auto-repeat is not
/// reported.
pub struct PushToTalk {
    down: bool,
}

impl PushToTalk {
    /// Whether the key is down.
    pub closed spec fn is_down(&self) -> bool {
        self.down
    }

    /// A tracker with the key up.
    pub fn new() -> (r: PushToTalk)
        ensures
            !r.is_down(),
    {
        PushToTalk { down: false }
    }

    /// Whether the key is down.
    pub fn down(&self) -> (r: bool)
        ensures
            r == self.is_down(),
    {
        self.down
    }

    /// Takes one key event and says what to report: `Some(true)` when the
    /// key went down, `Some(false)` when it came up, `None` when nothing
    /// changed (another key, a repeated press, a release of a key that was
    /// up).
    pub fn on_key(&mut self, m: KeyMessage) -> (report: Option<bool>)
        ensures
            final(self).is_down() == next_down(old(self).is_down(), m),
            report == (if final(self).is_down() != old(self).is_down() {
                Some(final(self).is_down())
            } else {
                None
            }),
    {
        if m.code >= 0 {
            let is_extended = m.flags & 1 != 0;
            let right_ctrl = m.vk_code == VK_RCONTROL || (m.vk_code == VK_CONTROL && is_extended);
            if right_ctrl {
                let pressed = m.msg == WM_KEYDOWN || m.msg == WM_SYSKEYDOWN;
                let released = m.msg == WM_KEYUP || m.msg == WM_SYSKEYUP;
                if pressed {
                    let was_down = self.down;
                    self.down = true;
                    if !was_down {
                        return Some(true);
                    }
                } else if released {
                    let was_down = self.down;
                    self.down = false;
                    if was_down {
                        return Some(false);
                    }
                }
            }
        }
        None
    }
}

/// The key state after the events `ms`, from `down`.
pub open spec fn state_after(down: bool, ms: Seq<KeyMessage>) -> bool
    decreases ms.len(),
{
    if ms.len() == 0 {
        down
    } else {
        next_down(state_after(down, ms.drop_last()), ms.last())
    }
}

/// What the hook reports over the events `ms`, from `down`.
pub open spec fn reports(down: bool, ms: Seq<KeyMessage>) -> Seq<bool>
    decreases ms.len(),
{
    if ms.len() == 0 {
        Seq::empty()
    } else {
        let before = state_after(down, ms.drop_last());
        let after = next_down(before, ms.last());
        if after != before {
            reports(down, ms.drop_last()).push(after)
        } else {
            reports(down, ms.drop_last())
        }
    }
}

/// Law: whatever events come in, the reports alternate between press and
/// release, the first one changes the key from its starting state, and the
/// last one is the key's state at the end. So a listener never hears two
/// presses, or two releases, in a row.
pub proof fn law_reports_alternate(down: bool, ms: Seq<KeyMessage>)
    ensures
        forall|i: int|
            0 <= i < reports(down, ms).len() - 1 ==> #[trigger] reports(down, ms)[i] != reports(
                down,
                ms,
            )[i + 1],
        reports(down, ms).len() > 0 ==> reports(down, ms)[0] != down,
        reports(down, ms).len() > 0 ==> reports(down, ms).last() == state_after(down, ms),
        reports(down, ms).len() == 0 ==> state_after(down, ms) == down,
    decreases ms.len(),
{
    if ms.len() > 0 {
        law_reports_alternate(down, ms.drop_last());
    }
}

/// Law: only the right Ctrl key counts. An event whose key code is
/// neither 0xA3 (right Ctrl) nor 0x11 (Ctrl) with the extended-key flag
/// (bit 0 of the flags) leaves the key state as it was, so that
/// [`PushToTalk::on_key`] reports nothing for it: left Ctrl (0xA2), plain
/// Ctrl and every other key are ignored.
pub proof fn law_only_right_ctrl_counts(down: bool, m: KeyMessage)
    requires
        m.vk_code != 0xA3,
        !(m.vk_code == 0x11 && m.flags & 1 != 0),
    ensures
        next_down(down, m) == down,
{
}

/// Law: right Ctrl, by its own code 0xA3 or as Ctrl (0x11) with the
/// extended-key flag, is the push-to-talk key: a key-down message (0x100,
/// or 0x104 with Alt) for the hook to look at puts it down, a key-up
/// message (0x101, or 0x105 with Alt) puts it up, whatever it was before.
pub proof fn law_right_ctrl_moves_the_key(down: bool, m: KeyMessage)
    requires
        m.code >= 0,
        m.vk_code == 0xA3 || (m.vk_code == 0x11 && m.flags & 1 != 0),
    ensures
        m.msg == 0x100 || m.msg == 0x104 ==> next_down(down, m),
        m.msg == 0x101 || m.msg == 0x105 ==> !next_down(down, m),
        !(m.msg == 0x100 || m.msg == 0x104 || m.msg == 0x101 || m.msg == 0x105) ==> next_down(
            down,
            m,
        ) == down,
{
}

} // verus!
