//! Which RDMA device a probe uses: the one asked for, or the first one that
//! the kernel has registered, as perftest itself picks.

use crate::sorting;
use crate::text;
use vstd::prelude::*;

verus! {

/// Why there is no device.
#[derive(Debug, Clone, Copy, PartialEq, Eq, Structural)]
pub enum NoDevice {
    /// The directory of devices cannot be read.
    Unreadable,
    /// It holds none.
    Absent,
}

impl NoDevice {
    /// The error as shown to people.
    pub fn message(&self) -> (r: &'static str)
        ensures
            r@ == match self {
                NoDevice::Unreadable => "read /sys/class/infiniband"@,
                NoDevice::Absent => "no RDMA devices in /sys/class/infiniband (kernel ib drivers loaded?)"@,
            },
    {
        match self {
            NoDevice::Unreadable => "read /sys/class/infiniband",
            NoDevice::Absent => "no RDMA devices in /sys/class/infiniband (kernel ib drivers loaded?)",
        }
    }
}

/// The device of a probe. `found` holds the names of the devices that there
/// are, where they could be read.
pub open spec fn device_of(explicit: Option<Seq<char>>, found: Option<Seq<Seq<char>>>) -> Result<
    Seq<char>,
    NoDevice,
> {
    match (explicit, found) {
        (Some(d), _) => Ok(d),
        (None, None) => Err(NoDevice::Unreadable),
        (None, Some(names)) => if names.len() == 0 {
            Err(NoDevice::Absent)
        } else {
            Ok(sorting::sorted_texts(names)[0])
        },
    }
}

/// The texts of a list, where there is one.
pub open spec fn opt_texts(v: Option<Vec<String>>) -> Option<Seq<Seq<char>>> {
    match v {
        Some(names) => Some(text::texts(names@)),
        None => None,
    }
}

/// The device of a probe: the one in `explicit`, or the first in order of
/// those in `found`. `found` holds the names in `/sys/class/infiniband`,
/// where it could be read.
pub fn select(explicit: Option<&str>, found: Option<Vec<String>>) -> (r: Result<String, NoDevice>)
    ensures
        match r {
            Ok(d) => device_of(text::opt_str(explicit), opt_texts(found)) == Ok::<Seq<char>, NoDevice>(d@),
            Err(e) => device_of(text::opt_str(explicit), opt_texts(found)) == Err::<Seq<char>, NoDevice>(e),
        },
{
    match explicit {
        Some(d) => {
            return Ok(d.to_owned());
        },
        None => {},
    }
    match found {
        Some(names) => {
            let ghost all = text::texts(names@);
            assert(all.len() == names@.len());
            let sorted = sorting::sort_texts(names);
            proof {
                sorting::lemma_arranged_same_elements(all, sorting::text_before());
                assert(text::texts(sorted@).len() == sorted@.len());
            }
            if sorted.len() == 0 {
                Err(NoDevice::Absent)
            } else {
                assert(text::texts(sorted@)[0] == sorted@[0]@);
                Ok(sorted[0].clone())
            }
        },
        None => Err(NoDevice::Unreadable),
    }
}

} // verus!
