//! The lines that the session shows to the user.

use crate::symbols::Error;
use crate::text::{address, address_text, decimal, decimal_text, signed_decimal, signed_text};
use vstd::prelude::*;
use vstd::string::*;

verus! {

/// The line that announces the end of a live inferior.
pub open spec fn killing_text(pid: i32) -> Seq<char> {
    "Killing running inferior (pid "@ + signed_text(pid as int) + ")"@
}

/// The line for a target that could not be started.
pub open spec fn start_failed_text() -> Seq<char> {
    "Error starting subprocess"@
}

/// The line for an inferior that ended by itself.
pub open spec fn exited_text(code: i32) -> Seq<char> {
    "Child exited (status "@ + signed_text(code as int) + ")"@
}

/// The line for an inferior that a signal ended.
pub open spec fn signaled_text(signal: i32) -> Seq<char> {
    "Child output signal "@ + signed_text(signal as int) + " "@
}

/// The line for an inferior that stopped on a signal.
pub open spec fn stopped_text(signal: i32) -> Seq<char> {
    "Child stopped (signal "@ + signed_text(signal as int) + ")"@
}

/// The line that says where in the source the inferior stopped.
pub open spec fn location_text(function: Seq<char>, file: Seq<char>, number: u64) -> Seq<char> {
    "Stopped at '"@ + function + "' "@ + file + ":"@ + decimal_text(number as nat)
}

/// The line for one frame of a backtrace.
pub open spec fn frame_text(function: Seq<char>, file: Seq<char>, number: u64) -> Seq<char> {
    function + " ("@ + file + ":"@ + decimal_text(number as nat) + ")"@
}

/// The line for a command that needs a stopped inferior when there is none.
pub open spec fn nothing_running_text() -> Seq<char> {
    "No running inferior exit!"@
}

/// The line for a breakpoint that cannot be set.
pub open spec fn invalid_breakpoint_text() -> Seq<char> {
    "Invalid position to set breakpoint!"@
}

/// The line for a breakpoint that was set, with the number of breakpoints.
pub open spec fn breakpoint_set_text(count: nat, addr: u64) -> Seq<char> {
    "Set breakpoint "@ + decimal_text(count) + " at "@ + address_text(addr as nat)
}

/// The line for a breakpoint whose trap could not be written at a start.
pub open spec fn cannot_install_text(addr: u64) -> Seq<char> {
    "Cannot install breakpoint at "@ + address_text(addr as nat)
}

/// The line for an instruction byte that is not the one on record.
pub open spec fn byte_changed_text(addr: u64, found: u8) -> Seq<char> {
    "Warning: instruction byte at "@ + address_text(addr as nat) + " changed to "@ + address_text(
        found as nat,
    )
}

/// The line for an inferior that was given up.
pub open spec fn lost_control_text(pid: i32) -> Seq<char> {
    "Lost control of inferior (pid "@ + signed_text(pid as int) + "), killed it"@
}

/// The line for a backtrace that could not read on.
pub open spec fn read_failed_text() -> Seq<char> {
    "Cannot read the stack of the inferior"@
}

/// The line that says why the debugging information could not be had.
pub open spec fn load_failed_text(target: Seq<char>, error: Error, detail: Seq<char>) -> Seq<char> {
    match error {
        Error::ErrorOpeningFile => "Could not open file "@ + target,
        Error::DwarfFormatError => "Could not debugging symbols from "@ + target + ": "@ + detail,
    }
}

/// Writes the line `killing_text`.
pub fn killing(pid: i32) -> (line: String)
    ensures
        line@ == killing_text(pid),
{
    let number = signed_decimal(pid);
    String::from_str("Killing running inferior (pid ").concat(number.as_str()).concat(")")
}

/// Writes the line `start_failed_text`.
pub fn start_failed() -> (line: String)
    ensures
        line@ == start_failed_text(),
{
    String::from_str("Error starting subprocess")
}

/// Writes the line `exited_text`.
pub fn exited(code: i32) -> (line: String)
    ensures
        line@ == exited_text(code),
{
    let number = signed_decimal(code);
    String::from_str("Child exited (status ").concat(number.as_str()).concat(")")
}

/// Writes the line `signaled_text`.
pub fn signaled(signal: i32) -> (line: String)
    ensures
        line@ == signaled_text(signal),
{
    let number = signed_decimal(signal);
    String::from_str("Child output signal ").concat(number.as_str()).concat(" ")
}

/// Writes the line `stopped_text`.
pub fn stopped(signal: i32) -> (line: String)
    ensures
        line@ == stopped_text(signal),
{
    let number = signed_decimal(signal);
    String::from_str("Child stopped (signal ").concat(number.as_str()).concat(")")
}

/// Writes the line `location_text`.
pub fn location(function: &str, file: &str, number: u64) -> (line: String)
    ensures
        line@ == location_text(function@, file@, number),
{
    let digits = decimal(number);
    String::from_str("Stopped at '").concat(function).concat("' ").concat(file).concat(
        ":",
    ).concat(digits.as_str())
}

/// Writes the line `frame_text`.
pub fn frame(function: &str, file: &str, number: u64) -> (line: String)
    ensures
        line@ == frame_text(function@, file@, number),
{
    let digits = decimal(number);
    String::from_str(function).concat(" (").concat(file).concat(":").concat(
        digits.as_str(),
    ).concat(")")
}

/// Writes the line `nothing_running_text`.
pub fn nothing_running() -> (line: String)
    ensures
        line@ == nothing_running_text(),
{
    String::from_str("No running inferior exit!")
}

/// Writes the line `invalid_breakpoint_text`.
pub fn invalid_breakpoint() -> (line: String)
    ensures
        line@ == invalid_breakpoint_text(),
{
    String::from_str("Invalid position to set breakpoint!")
}

/// Writes the line `breakpoint_set_text`.
pub fn breakpoint_set(count: usize, addr: u64) -> (line: String)
    ensures
        line@ == breakpoint_set_text(count as nat, addr),
{
    let number = decimal(count as u64);
    let place = address(addr);
    String::from_str("Set breakpoint ").concat(number.as_str()).concat(" at ").concat(
        place.as_str(),
    )
}

/// Writes the line `cannot_install_text`.
pub fn cannot_install(addr: u64) -> (line: String)
    ensures
        line@ == cannot_install_text(addr),
{
    let place = address(addr);
    String::from_str("Cannot install breakpoint at ").concat(place.as_str())
}

/// Writes the line `byte_changed_text`.
pub fn byte_changed(addr: u64, found: u8) -> (line: String)
    ensures
        line@ == byte_changed_text(addr, found),
{
    let place = address(addr);
    let byte = address(found as u64);
    String::from_str("Warning: instruction byte at ").concat(place.as_str()).concat(
        " changed to ",
    ).concat(byte.as_str())
}

/// Writes the line `lost_control_text`.
pub fn lost_control(pid: i32) -> (line: String)
    ensures
        line@ == lost_control_text(pid),
{
    let number = signed_decimal(pid);
    String::from_str("Lost control of inferior (pid ").concat(number.as_str()).concat(
        "), killed it",
    )
}

/// Writes the line `read_failed_text`.
pub fn read_failed() -> (line: String)
    ensures
        line@ == read_failed_text(),
{
    String::from_str("Cannot read the stack of the inferior")
}

/// The line that says why the debugging information of `target` could not
/// be had; `detail` is what the reader of the format had to say.
pub fn load_failed(target: &str, error: Error, detail: &str) -> (line: String)
    ensures
        line@ == load_failed_text(target@, error, detail@),
{
    match error {
        Error::ErrorOpeningFile => String::from_str("Could not open file ").concat(target),
        Error::DwarfFormatError => String::from_str("Could not debugging symbols from ").concat(
            target,
        ).concat(": ").concat(detail),
    }
}

} // verus!
