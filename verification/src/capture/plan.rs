//! Which interfaces are captured, and where their raw packets go.
use crate::capture::pcapng;
use crate::capture::pcapng::RawCaptureOptions;
use crate::events;
use crate::events::TrafficFilter;
use crate::text;
use vstd::prelude::*;

verus! {

/// The capture on one interface.
#[derive(Debug)]
pub struct InterfaceCapture {
    pub interface: String,
    pub raw_capture: Option<RawCaptureOptions>,
}

/// The captures to run, and the filter for all of them.
#[derive(Debug)]
pub struct CapturePlan {
    pub filter: TrafficFilter,
    pub captures: Vec<InterfaceCapture>,
}

/// The model of where raw packets go: a path and a size.
pub open spec fn raw_options_view(options: Option<RawCaptureOptions>) -> Option<(Seq<u8>, u64)> {
    match options {
        Some(o) => Some((o.path@, o.rotate_bytes)),
        None => None,
    }
}

/// Where the raw packets of one interface go.
pub open spec fn interface_options(
    options: Option<(Seq<u8>, u64)>,
    interface: Seq<char>,
    several: bool,
) -> Option<(Seq<u8>, u64)> {
    match options {
        Some((path, size)) => Some((pcapng::path_of_interface(path, interface, several), size)),
        None => None,
    }
}

/// Plans one capture for each interface; there must be one. The filter is bound to the same
/// interfaces, and with several of them each has a raw file of its own.
pub fn plan_interfaces(
    interfaces: Vec<String>,
    filter: TrafficFilter,
    raw_capture: &Option<RawCaptureOptions>,
) -> (r: Result<CapturePlan, String>)
    ensures
        match r {
            Ok(plan) => {
                &&& interfaces@.len() > 0
                &&& plan.filter@ == (events::TrafficFilterView {
                    interfaces: text::texts(interfaces@),
                    ..filter@
                })
                &&& plan.captures@.len() == interfaces@.len()
                &&& forall|i: int|
                    0 <= i < interfaces@.len() ==> {
                        &&& (#[trigger] plan.captures@[i]).interface@ == interfaces@[i]@
                        &&& raw_options_view(plan.captures@[i].raw_capture) == interface_options(
                            raw_options_view(*raw_capture),
                            interfaces@[i]@,
                            interfaces@.len() > 1,
                        )
                    }
            },
            Err(e) => interfaces@.len() == 0 && e@ == "at least one --interface is required"@,
        },
{
    let n: usize = interfaces.len();
    if n == 0 {
        return Err("at least one --interface is required".to_owned());
    }
    let mut captures: Vec<InterfaceCapture> = Vec::new();
    let mut i: usize = 0;
    while i < n
        invariant
            i <= n,
            n == interfaces@.len(),
            captures@.len() == i,
            forall|k: int|
                0 <= k < i ==> {
                    &&& (#[trigger] captures@[k]).interface@ == interfaces@[k]@
                    &&& raw_options_view(captures@[k].raw_capture) == interface_options(
                        raw_options_view(*raw_capture),
                        interfaces@[k]@,
                        n > 1,
                    )
                },
        decreases n - i,
    {
        let own = match raw_capture {
            Some(options) => Some(
                RawCaptureOptions {
                    path: pcapng::raw_path_for_interface(
                        &options.path,
                        interfaces[i].as_str(),
                        n > 1,
                    ),
                    rotate_bytes: options.rotate_bytes,
                },
            ),
            None => None,
        };
        captures.push(InterfaceCapture { interface: interfaces[i].clone(), raw_capture: own });
        i += 1;
    }
    let mut bound = filter;
    bound.interfaces = interfaces;
    Ok(CapturePlan { filter: bound, captures })
}

} // verus!
