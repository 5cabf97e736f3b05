use vstd::prelude::*;

verus! {

/// Number of analog inputs the controls are read from.
pub const ADC_PINS: usize = 7;

/// Failures of a control scan.
#[derive(Debug)]
pub enum AdcsError {
    /// The converter reported an error on the named pin.
    ReadError(&'static str),
    /// A conversion was not ready.
    WouldBlock,
}

/// What one conversion gave.
pub enum ReadOutcome {
    Value(u32),
    WouldBlock,
    Failed,
}

/// Name of the pin scanned at position `i`.
pub open spec fn pin_label(i: int) -> Seq<char> {
    if i == 0 {
        "pc0"@
    } else if i == 1 {
        "pa3"@
    } else if i == 2 {
        "pb1"@
    } else if i == 3 {
        "pa7"@
    } else if i == 4 {
        "pa6"@
    } else if i == 5 {
        "pc1"@
    } else {
        "pc4"@
    }
}

/// Name of the pin scanned at position `i` (pc0, pa3, pb1, pa7, pa6, pc1, pc4).
pub fn pin_name(i: usize) -> (r: &'static str)
    requires
        i < ADC_PINS,
    ensures
        r@ == pin_label(i as int),
{
    if i == 0 {
        "pc0"
    } else if i == 1 {
        "pa3"
    } else if i == 2 {
        "pb1"
    } else if i == 3 {
        "pa7"
    } else if i == 4 {
        "pa6"
    } else if i == 5 {
        "pc1"
    } else {
        "pc4"
    }
}

/// Records the conversion of pin `pin` into its slot of `buffer`. A value is
/// stored; a conversion that was not ready is `WouldBlock`; a failed one is a
/// `ReadError` naming the pin. On failure the buffer is left as it was.
pub fn record_reading(buffer: &mut [u32; 7], pin: usize, outcome: ReadOutcome) -> (r: Result<
    (),
    AdcsError,
>)
    requires
        pin < ADC_PINS,
    ensures
        match outcome {
            ReadOutcome::Value(v) => r is Ok && final(buffer)@ == old(buffer)@.update(pin as int, v),
            ReadOutcome::WouldBlock => r matches Err(AdcsError::WouldBlock) && final(buffer)@ == old(
                buffer,
            )@,
            ReadOutcome::Failed => r matches Err(AdcsError::ReadError(name)) && name@ == pin_label(
                pin as int,
            ) && final(buffer)@ == old(buffer)@,
        },
{
    match outcome {
        ReadOutcome::Value(v) => {
            buffer[pin] = v;
            Ok(())
        },
        ReadOutcome::WouldBlock => Err(AdcsError::WouldBlock),
        ReadOutcome::Failed => Err(AdcsError::ReadError(pin_name(pin))),
    }
}

} // verus!
