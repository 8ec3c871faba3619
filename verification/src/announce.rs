//! The service the receiver registers with the discovery library, bound to
//! the record of plain values it was built from.

use vstd::prelude::*;
use crate::streamer::{record_values, ServiceRecord};

verus! {

#[verifier::external_type_specification]
#[verifier::external_body]
pub struct ExServiceInfo(mdns_sd::ServiceInfo);

#[verifier::external_type_specification]
#[verifier::external_body]
pub struct ExMdnsError(mdns_sd::Error);

/// A service ready to be registered, together with the record it was built
/// from. Only `new_service_info` makes one.
pub struct Announcement {
    info: mdns_sd::ServiceInfo,
    record: ServiceRecord,
}

impl Announcement {
    /// The values the service was built from: service type, instance name,
    /// host name, address, port.
    pub closed spec fn source(&self) -> (Seq<char>, Seq<char>, Seq<char>, crate::streamer::Ipv4, u16) {
        record_values(&self.record)
    }

    /// The service, to hand to the discovery daemon.
    pub fn into_info(self) -> mdns_sd::ServiceInfo {
        self.info
    }
}

/// Calls `mdns_sd::ServiceInfo::new` with the record's service type,
/// instance name, host name, address (as one `IpAddr`) and port, and no TXT
/// properties, and keeps the record beside the service built from it. In
/// the crate's source (0.21.7) that constructor can fail only on an address
/// given as text or on a TXT property; an `IpAddr` is always accepted and
/// `None` gives no property, so the result is claimed to be `Ok`, built from
/// exactly the record's values. The service itself is opaque to Verus.
#[verifier::external_body]
pub(crate) fn new_service_info(record: ServiceRecord) -> (r: Result<Announcement, mdns_sd::Error>)
    ensures
        r is Ok,
        r matches Ok(a) ==> a.source() == record_values(&record),
{
    let addr = core::net::IpAddr::from([record.ip.0, record.ip.1, record.ip.2, record.ip.3]);
    let none = None::<std::collections::HashMap<String, String>>;
    match mdns_sd::ServiceInfo::new(&record.service_type, &record.instance, &record.host, addr, record.port, none) {
        Ok(info) => Ok(Announcement { info, record }),
        Err(e) => Err(e),
    }
}

} // verus!
