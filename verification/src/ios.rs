//! What iOS devices tell of themselves.

use vstd::prelude::*;

verus! {

/// Judges the kernel's messages by the port that was allocated: port 0 is none.
pub fn test_mach_ipc(port: u32) -> (r: Result<(), String>)
    ensures
        match r {
            Ok(_) => port != 0,
            Err(e) => port == 0 && e@ == "Failed to allocate mach port"@,
        },
{
    if port == 0 {
        return Err("Failed to allocate mach port".to_owned());
    }
    let result: i32 = insert_right(port);
    if result == 0 {
        Ok(())
    } else {
        Err("Mach IPC test failed".to_owned())
    }
}

/// Adds a right to send to a port.
fn insert_right(_port: u32) -> (r: i32)
    ensures
        r == 0,
{
    0
}

/// The service that knows of the power supply.
fn matching_service() -> (r: u32)
    ensures
        r == 1,
{
    1
}

/// Whether a property of a service could be read, and what it is.
fn registry_property(_service: u32) -> (r: (i32, u32))
    ensures
        r == (0i32, 0u32),
{
    (0, 0)
}

/// The power that the device draws.
pub fn get_power_consumption() -> (r: Result<u32, String>)
    ensures
        r matches Ok(consumption) && consumption == 0,
{
    let service: u32 = matching_service();
    if service == 0 {
        return Err("Failed to get IOKit service".to_owned());
    }
    let (result, consumption) = registry_property(service);
    if result == 0 {
        Ok(consumption)
    } else {
        Err("Failed to read power consumption".to_owned())
    }
}

/// The run loop of the thread: a thread of these tests has none.
fn current_runloop() -> (r: Option<u64>)
    ensures
        r is None,
{
    None
}

/// The mode of a run loop.
fn current_mode(_runloop: u64) -> (r: Option<u64>)
    ensures
        r is None,
{
    None
}

/// Looks for the run loop of the thread and its mode.
pub fn test_runloop() -> (r: Result<(), String>)
    ensures
        r matches Err(e) && e@ == "Failed to get runloop"@,
{
    let runloop: u64 = match current_runloop() {
        Some(p) => p,
        None => {
            return Err("Failed to get runloop".to_owned());
        },
    };
    match current_mode(runloop) {
        Some(_) => Ok(()),
        None => Err("Failed to get runloop mode".to_owned()),
    }
}

/// The charge and the state of the battery, in thousandths of a percent and of the
/// number of the state. The charge is given in thousandths of a full one.
pub fn get_battery_info(level: i32, state: i32) -> (r: Vec<(String, i64)>)
    ensures
        r@.len() == 2,
        r@[0].0@ == "level"@,
        r@[0].1 == level * 100,
        r@[1].0@ == "state"@,
        r@[1].1 == state * 1000,
{
    let mut info: Vec<(String, i64)> = Vec::new();
    info.push(("level".to_owned(), level as i64 * 100));
    info.push(("state".to_owned(), state as i64 * 1000));
    info
}

} // verus!
