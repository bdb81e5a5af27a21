//! Power states, processor frequencies, wake locks and suspension.

use vstd::prelude::*;

verus! {

/// How deeply the device sleeps.
#[derive(Clone, Copy, Debug, PartialEq, Eq, Structural)]
pub enum PowerState {
    Active,
    Idle,
    Sleep,
    DeepSleep,
    Suspend,
    Hibernate,
}

/// Whether the device has the power state: it has all of them.
pub fn is_power_state_supported(_state: PowerState) -> (r: bool)
    ensures
        r,
{
    true
}

/// The power that the active device draws, in milliwatts.
pub const ACTIVE_POWER_MW: u32 = 500;

/// The power that the device draws in a state, in milliwatts.
pub closed spec fn drawn(state: PowerState) -> int {
    match state {
        PowerState::Active => ACTIVE_POWER_MW as int,
        PowerState::Idle => 250,
        PowerState::Sleep => 100,
        PowerState::DeepSleep => 50,
        PowerState::Suspend => 20,
        PowerState::Hibernate => 0,
    }
}

/// A device that leaves the active state for any other one draws less power.
pub proof fn other_states_save_power(state: PowerState)
    ensures
        drawn(PowerState::Active) == ACTIVE_POWER_MW,
        saves_power(state, drawn(PowerState::Active), drawn(state)),
{
}

/// The power state of the device and the frequency of its processor.
#[derive(Debug)]
pub struct DevicePower {
    current_state: PowerState,
    frequency_mhz: u32,
}

impl DevicePower {
    /// The power state.
    pub closed spec fn state(self) -> PowerState {
        self.current_state
    }

    /// The processor frequency that was set, in megahertz.
    pub closed spec fn frequency(self) -> int {
        self.frequency_mhz as int
    }

    /// An active device whose processor runs at 1200 megahertz.
    pub fn new() -> (r: DevicePower)
        ensures
            r.state() == PowerState::Active,
            r.frequency() == 1200,
    {
        DevicePower { current_state: PowerState::Active, frequency_mhz: 1200 }
    }

    /// Goes to a power state, and says how many milliseconds that took.
    pub fn transition_to_power_state(&mut self, state: PowerState) -> (r: u64)
        ensures
            r == 100,
            final(self).state() == state,
            final(self).frequency() == old(self).frequency(),
    {
        self.current_state = state;
        100
    }

    /// The power that the device draws, in milliwatts: less than in the active state where
    /// it is in any other one.
    pub fn measure_power_consumption(&self) -> (r: u32)
        ensures
            r == drawn(self.state()),
            self.state() is Active ==> r == ACTIVE_POWER_MW,
            !(self.state() is Active) ==> r < ACTIVE_POWER_MW,
    {
        match self.current_state {
            PowerState::Active => ACTIVE_POWER_MW,
            PowerState::Idle => 250,
            PowerState::Sleep => 100,
            PowerState::DeepSleep => 50,
            PowerState::Suspend => 20,
            PowerState::Hibernate => 0,
        }
    }

    /// Sets the processor frequency, in megahertz.
    pub fn set_cpu_frequency(&mut self, freq_mhz: u32)
        ensures
            final(self).frequency() == freq_mhz,
            final(self).state() == old(self).state(),
    {
        self.frequency_mhz = freq_mhz;
    }

    /// The current processor frequency, in megahertz: the one that was set.
    pub fn get_current_cpu_frequency(&self) -> (r: u32)
        ensures
            r == self.frequency(),
            is_near(r as int, self.frequency()),
    {
        self.frequency_mhz
    }
}

/// Whether the power before and after a transition is as the state promises: every
/// state but the active one draws less.
pub open spec fn saves_power(state: PowerState, before_mw: int, after_mw: int) -> bool {
    state == PowerState::Active || before_mw > after_mw
}

/// How much less power the device draws after a transition, in milliwatts, and whether
/// that is as the state promises.
pub fn check_power_drop(state: PowerState, before_mw: u32, after_mw: u32) -> (r: (i64, bool))
    ensures
        r.0 == before_mw - after_mw,
        r.1 == saves_power(state, before_mw as int, after_mw as int),
{
    let drop: i64 = before_mw as i64 - after_mw as i64;
    (drop, state == PowerState::Active || drop > 0)
}

/// The frequencies that a processor can be set to, in megahertz.
pub open spec fn frequencies() -> Seq<u32> {
    seq![300, 600, 1200, 1800]
}

/// The frequencies that a processor can be set to, in megahertz.
pub fn get_available_cpu_frequencies() -> (r: Vec<u32>)
    ensures
        r@ == frequencies(),
{
    let mut r: Vec<u32> = Vec::new();
    r.push(300);
    r.push(600);
    r.push(1200);
    r.push(1800);
    r
}

/// Whether a processor runs at the requested frequency, within less than 100 MHz.
pub open spec fn is_near(current_mhz: int, requested_mhz: int) -> bool {
    -100 < current_mhz - requested_mhz < 100
}

/// Whether a processor runs at the requested frequency, within less than 100 MHz.
pub fn frequency_is_set(current_mhz: u32, requested_mhz: u32) -> (r: bool)
    ensures
        r == is_near(current_mhz as int, requested_mhz as int),
{
    let diff: i64 = current_mhz as i64 - requested_mhz as i64;
    -100 < diff && diff < 100
}

/// Whether the device can be suspended: the file that controls it is there.
pub fn is_suspend_supported(control_file_exists: bool) -> (r: bool)
    ensures
        r == control_file_exists,
{
    control_file_exists
}

/// Wakes the device up.
pub fn wake_system() -> (r: Result<(), String>)
    ensures
        r is Ok,
{
    Ok(())
}

/// What is wrong after the device was suspended and woken up.
#[derive(Clone, Copy, Debug, PartialEq, Eq, Structural)]
pub enum SuspendFault {
    /// The cycle took ten seconds or longer.
    TooSlow,
    /// The device has been up for no time at all.
    NotResumed,
}

/// What is wrong after a suspension, if anything.
pub open spec fn suspend_fault(cycle_ns: int, uptime_ns: int) -> Option<SuspendFault> {
    if cycle_ns >= 10_000_000_000 {
        Some(SuspendFault::TooSlow)
    } else if uptime_ns <= 0 {
        Some(SuspendFault::NotResumed)
    } else {
        None
    }
}

/// Judges a suspension by how long it took and the uptime after it.
pub fn check_suspend(cycle_ns: u64, uptime_ns: u64) -> (r: Result<(), SuspendFault>)
    ensures
        r == (match suspend_fault(cycle_ns as int, uptime_ns as int) {
            Some(f) => Err::<(), SuspendFault>(f),
            None => Ok::<(), SuspendFault>(()),
        }),
{
    if cycle_ns >= 10_000_000_000 {
        Err(SuspendFault::TooSlow)
    } else if uptime_ns == 0 {
        Err(SuspendFault::NotResumed)
    } else {
        Ok(())
    }
}

/// Keeps the device awake while it is held.
#[derive(Debug)]
pub struct WakeLock {
    name: String,
}

impl View for WakeLock {
    type V = Seq<char>;

    /// The name of the lock.
    closed spec fn view(&self) -> Seq<char> {
        self.name@
    }
}

impl WakeLock {
    /// A lock with this name.
    pub fn new(name: &str) -> (r: Result<WakeLock, String>)
        ensures
            r matches Ok(lock) && lock@ == name@,
    {
        Ok(WakeLock { name: name.to_owned() })
    }

    /// Holds the lock.
    pub fn acquire(&self) -> (r: Result<(), String>)
        ensures
            r is Ok,
    {
        Ok(())
    }

    /// Gives the lock up.
    pub fn release(&self) -> (r: Result<(), String>)
        ensures
            r is Ok,
    {
        Ok(())
    }

    /// Whether the device stayed awake: a transition to sleep came back within less than
    /// 100 milliseconds.
    pub fn kept_awake(&self, sleep_ns: u64) -> (r: bool)
        ensures
            r == (sleep_ns < 100_000_000),
    {
        sleep_ns < 100_000_000
    }
}

} // verus!
