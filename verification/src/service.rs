use vstd::prelude::*;

verus! {

/// What the engine knows about one well-known service.
#[derive(Clone, Debug)]
pub struct ServiceInfo {
    pub name: String,
    pub description: String,
    pub common_banners: Vec<String>,
}

/// The static port-to-service table. It is built once, before any scan
/// starts, and only read afterwards, so concurrent probes can share it
/// freely.
pub struct ServiceTable {
    entries: Vec<(u16, ServiceInfo)>,
}

/// First-match lookup of a port among the table's entries.
pub open spec fn spec_lookup(entries: Seq<(u16, ServiceInfo)>, port: u16) -> Option<Seq<char>>
    decreases entries.len(),
{
    if entries.len() == 0 {
        None
    } else if entries[0].0 == port {
        Some(entries[0].1.name@)
    } else {
        spec_lookup(entries.drop_first(), port)
    }
}

impl View for ServiceTable {
    type V = Seq<(u16, ServiceInfo)>;

    closed spec fn view(&self) -> Seq<(u16, ServiceInfo)> {
        self.entries@
    }
}

impl ServiceTable {
    pub fn new() -> (t: ServiceTable)
        ensures
            t@.len() == 0,
    {
        ServiceTable { entries: Vec::new() }
    }

    pub fn push_entry(&mut self, port: u16, info: ServiceInfo)
        ensures
            final(self)@ == old(self)@.push((port, info)),
    {
        self.entries.push((port, info));
    }

    /// The service name registered for `port`, if any.
    pub fn lookup(&self, port: u16) -> (r: Option<String>)
        ensures
            match r {
                Some(name) => spec_lookup(self@, port) == Some(name@),
                None => spec_lookup(self@, port) is None,
            },
    {
        let n = self.entries.len();
        let mut i: usize = 0;
        proof {
            assert(self.entries@.skip(0) =~= self.entries@);
        }
        while i < n
            invariant
                i <= n,
                n == self.entries@.len(),
                spec_lookup(self.entries@, port) == spec_lookup(self.entries@.skip(i as int), port),
            decreases n - i,
        {
            proof {
                assert(self.entries@.skip(i as int).drop_first() =~= self.entries@.skip(
                    (i + 1) as int,
                ));
                assert(self.entries@.skip(i as int)[0] == self.entries@[i as int]);
            }
            let entry = &self.entries[i];
            if entry.0 == port {
                return Some(entry.1.name.clone());
            }
            i = i + 1;
        }
        proof {
            assert(self.entries@.skip(n as int) =~= Seq::<(u16, ServiceInfo)>::empty());
        }
        None
    }

    /// The table the scanner ships with: the handful of services the
    /// report names. Today that is HTTP on port 80.
    pub fn standard() -> (t: ServiceTable)
        ensures
            spec_lookup(t@, 80) == Some("HTTP"@),
            forall|p: u16| p != 80 ==> spec_lookup(t@, p) is None,
    {
        let mut banners: Vec<String> = Vec::new();
        banners.push("Apache".to_owned());
        banners.push("nginx".to_owned());
        banners.push("Microsoft-IIS".to_owned());
        let info = ServiceInfo {
            name: "HTTP".to_owned(),
            description: "Hypertext Transfer Protocol".to_owned(),
            common_banners: banners,
        };
        let mut t = ServiceTable::new();
        t.push_entry(80, info);
        proof {
            assert forall|p: u16| p != 80 implies spec_lookup(t@, p) is None by {
                reveal_with_fuel(spec_lookup, 3);
                assert(t@.drop_first() =~= Seq::<(u16, ServiceInfo)>::empty());
            }
            assert(t@[0].1.name@ == "HTTP"@);
        }
        t
    }
}

} // verus!
