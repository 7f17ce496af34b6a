use vstd::prelude::*;

verus! {

/// The service under which the server is advertised on the local network.
pub struct MdnsService<'a> {
    pub service_type: &'a str,
    pub instance_name: &'a str,
}

impl MdnsService<'static> {
    /// The service type and instance name that Heartsock advertises.
    pub fn heartsock() -> (r: MdnsService<'static>)
        ensures
            r.service_type@ == "_heartsock._tcp.local."@,
            r.instance_name@ == "❤️🧦"@,
    {
        MdnsService { service_type: "_heartsock._tcp.local.", instance_name: "❤️🧦" }
    }
}

} // verus!
