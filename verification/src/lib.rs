//! Discovery of SSTEQ25 telescope mounts and AllSky cameras on the local
//! network: the decisions that the desktop shell takes around its network
//! probes, stated and proved with Verus.

pub mod text;
pub mod unique;
pub mod subnet;
pub mod scan;
pub mod json;
pub mod device;
pub mod mdns;
