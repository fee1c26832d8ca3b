//! Decisions of the desktop backlight bridge: the `uleds` registration
//! record, and what to do with each read from the userspace LED (the reads,
//! writes and signals themselves belong to the program around it).
use vstd::prelude::*;

verus! {

/// `LED_MAX_NAME_SIZE` of the kernel `uleds` ABI: the NUL-padded name field.
pub const LED_MAX_NAME_SIZE: usize = 64;

/// Size of `struct uleds_user_dev`: the name field, then a `u32`
/// `max_brightness`.
pub const ULEDS_USER_DEV_LEN: usize = 68;

/// The `struct uleds_user_dev` record: `name` NUL-padded to 64 bytes, then
/// the four bytes of `max_brightness` (in the machine's byte order).
pub open spec fn spec_uleds_user_dev(name: Seq<u8>, max_brightness: Seq<u8>) -> Seq<u8> {
    Seq::new(
        ULEDS_USER_DEV_LEN as nat,
        |i: int|
            if i < name.len() {
                name[i]
            } else if i < LED_MAX_NAME_SIZE {
                0u8
            } else {
                max_brightness[i - LED_MAX_NAME_SIZE]
            },
    )
}

/// The registration record for an LED called `name`; `None` when the name
/// leaves no room for its NUL terminator.
pub fn uleds_user_dev(name: &[u8], max_brightness: [u8; 4]) -> (res: Option<[u8; ULEDS_USER_DEV_LEN]>)
    ensures
        name@.len() >= LED_MAX_NAME_SIZE ==> res is None,
        name@.len() < LED_MAX_NAME_SIZE ==> (res matches Some(buf) && buf@ == spec_uleds_user_dev(
            name@,
            max_brightness@,
        )),
{
    if name.len() >= LED_MAX_NAME_SIZE {
        return None;
    }
    let mut buf = [0u8; ULEDS_USER_DEV_LEN];
    let mut i: usize = 0;
    while i < name.len()
        invariant
            name@.len() < LED_MAX_NAME_SIZE,
            i <= name@.len(),
            buf@.len() == ULEDS_USER_DEV_LEN,
            forall|j: int| 0 <= j < i ==> buf@[j] == name@[j],
            forall|j: int| i <= j < ULEDS_USER_DEV_LEN ==> buf@[j] == 0u8,
        decreases name@.len() - i,
    {
        buf[i] = name[i];
        i = i + 1;
    }
    buf[64] = max_brightness[0];
    buf[65] = max_brightness[1];
    buf[66] = max_brightness[2];
    buf[67] = max_brightness[3];
    assert(buf@ =~= spec_uleds_user_dev(name@, max_brightness@));
    Some(buf)
}

/// A brightness the desktop sent, clamped to `0..=255`.
pub open spec fn spec_uleds_brightness(raw: i32) -> u8 {
    if raw < 0 {
        0
    } else if raw > 255 {
        255
    } else {
        raw as u8
    }
}

/// Clamp a brightness the desktop sent to `0..=255`.
pub fn uleds_brightness(raw: i32) -> (res: u8)
    ensures
        res == spec_uleds_brightness(raw),
{
    if raw < 0 {
        0
    } else if raw > 255 {
        255
    } else {
        raw as u8
    }
}

/// What one read of the userspace LED produced.
#[derive(Debug, Clone, Copy, PartialEq, Eq)]
pub enum UledsRead {
    /// A full 4-byte read: the brightness the desktop set.
    Value(i32),
    /// End of file.
    Eof,
    /// A read of this many bytes, short of 4.
    Short(usize),
    /// The read was interrupted by a signal; whether a terminating signal
    /// has arrived.
    Interrupted { terminate: bool },
    /// The read failed otherwise.
    Failed,
}

/// What the bridge does next.
#[derive(Debug, Clone, Copy, PartialEq, Eq)]
pub enum DaemonAction {
    /// Store this brightness and re-apply the stored frame at it.
    Apply(u8),
    /// Stop and remove the LED.
    Exit,
    /// Ignore the read and read again.
    Continue,
    /// Stop with the read error.
    Fail,
}

/// The bridge's decision on one read (see `daemon_step`).
pub open spec fn daemon_action_of(read: UledsRead) -> DaemonAction {
    match read {
        UledsRead::Value(raw) => DaemonAction::Apply(spec_uleds_brightness(raw)),
        UledsRead::Eof => DaemonAction::Exit,
        UledsRead::Short(_) => DaemonAction::Continue,
        UledsRead::Interrupted { terminate } => if terminate {
            DaemonAction::Exit
        } else {
            DaemonAction::Continue
        },
        UledsRead::Failed => DaemonAction::Fail,
    }
}

/// The bridge's decision on one read: apply a full value (clamped), stop at
/// end of file or on a terminating signal, read again after a short read
/// or a spurious interruption, stop with an error otherwise.
pub fn daemon_step(read: UledsRead) -> (res: DaemonAction)
    ensures
        res == daemon_action_of(read),
        res == match read {
            UledsRead::Value(raw) => DaemonAction::Apply(spec_uleds_brightness(raw)),
            UledsRead::Eof => DaemonAction::Exit,
            UledsRead::Short(_) => DaemonAction::Continue,
            UledsRead::Interrupted { terminate } => if terminate {
                DaemonAction::Exit
            } else {
                DaemonAction::Continue
            },
            UledsRead::Failed => DaemonAction::Fail,
        },
{
    match read {
        UledsRead::Value(raw) => DaemonAction::Apply(uleds_brightness(raw)),
        UledsRead::Eof => DaemonAction::Exit,
        UledsRead::Short(_) => DaemonAction::Continue,
        UledsRead::Interrupted { terminate } => if terminate {
            DaemonAction::Exit
        } else {
            DaemonAction::Continue
        },
        UledsRead::Failed => DaemonAction::Fail,
    }
}

/// A brightness the desktop sends is kept as it is when it is a byte
/// (`0..=255`), and the clamp never reorders two brightnesses: a larger
/// request is never dimmer. Below 0 it is 0, above 255 it is 255.
pub proof fn law_uleds_brightness_clamps(raw: i32, other: i32)
    ensures
        0 <= raw <= 255 ==> spec_uleds_brightness(raw) == raw,
        raw <= other ==> spec_uleds_brightness(raw) <= spec_uleds_brightness(other),
        raw < 0 ==> spec_uleds_brightness(raw) == 0,
        raw > 255 ==> spec_uleds_brightness(raw) == 255,
{
}

/// The registration record names the LED: its name's bytes first, then at
/// least one NUL (the terminator) up to byte 64, then the four bytes of
/// `max_brightness`.
pub proof fn law_uleds_record_layout(name: Seq<u8>, max_brightness: Seq<u8>)
    requires
        name.len() < LED_MAX_NAME_SIZE,
    ensures
        spec_uleds_user_dev(name, max_brightness).len() == 68,
        spec_uleds_user_dev(name, max_brightness).take(name.len() as int) == name,
        spec_uleds_user_dev(name, max_brightness)[name.len() as int] == 0u8,
        forall|i: int|
            name.len() <= i < 64 ==> #[trigger] spec_uleds_user_dev(name, max_brightness)[i] == 0u8,
        forall|k: int|
            0 <= k < 4 ==> #[trigger] spec_uleds_user_dev(name, max_brightness)[64 + k]
                == max_brightness[k],
{
    assert(spec_uleds_user_dev(name, max_brightness).take(name.len() as int) =~= name);
}

/// The bridge applies every full read, as its clamped brightness, and
/// only those; it stops at end of file, on a terminating signal and on a
/// read error, and reads again otherwise.
pub proof fn law_daemon_step_applies_only_values(read: UledsRead)
    ensures
        (exists|v: u8| #[trigger] daemon_action_of(read) == DaemonAction::Apply(v)) <==> read is Value,
        read matches UledsRead::Value(raw) ==> daemon_action_of(read) == DaemonAction::Apply(
            spec_uleds_brightness(raw),
        ),
        daemon_action_of(read) == DaemonAction::Exit <==> (read is Eof || (read is Interrupted && read->Interrupted_terminate)),
        daemon_action_of(read) == DaemonAction::Fail <==> read is Failed,
{
    if read is Value {
        assert(daemon_action_of(read) == DaemonAction::Apply(spec_uleds_brightness(read->Value_0)));
    }
}

} // verus!
