use vstd::prelude::*;

verus! {

/// What the engine needs to know about one network interface; the
/// enumeration itself is the platform's business and happens outside
/// the library.
#[derive(Clone, Debug)]
pub struct InterfaceInfo {
    pub name: String,
    pub up: bool,
    pub loopback: bool,
}

#[derive(Clone, Copy, Debug, PartialEq, Eq, Structural)]
pub enum InterfaceError {
    /// The interface asked for by name does not exist.
    NotFound,
    /// No interface was named and none is up and non-loopback.
    NoneSuitable,
}

/// An interface the scanner would pick on its own.
pub open spec fn usable(i: InterfaceInfo) -> bool {
    i.up && !i.loopback
}

/// Whether some listed interface carries this name.
pub open spec fn has_interface(list: Seq<InterfaceInfo>, name: Seq<char>) -> bool {
    exists|k: int| 0 <= k < list.len() && list[k].name@ == name
}

/// The first usable interface in the list, if any.
pub open spec fn first_usable(list: Seq<InterfaceInfo>) -> Option<Seq<char>>
    decreases list.len(),
{
    if list.len() == 0 {
        None
    } else if usable(list[0]) {
        Some(list[0].name@)
    } else {
        first_usable(list.drop_first())
    }
}

/// Choose the interface to scan from: a requested name must exist, and
/// with no request the first interface that is up and not loopback is
/// taken.
pub fn select_interface(requested: &Option<String>, available: &Vec<InterfaceInfo>) -> (r: Result<
    String,
    InterfaceError,
>)
    ensures
        match *requested {
            Some(ref name) => {
                &&& has_interface(available@, name@) ==> (r matches Ok(out) && out@ == name@)
                &&& !has_interface(available@, name@) ==> (r matches Err(e) && e
                    == InterfaceError::NotFound)
            },
            None => match first_usable(available@) {
                Some(picked) => r matches Ok(out) && out@ == picked,
                None => r matches Err(e) && e == InterfaceError::NoneSuitable,
            },
        },
{
    let n = available.len();
    match requested {
        Some(name) => {
            let mut i: usize = 0;
            while i < n
                invariant
                    i <= n,
                    n == available@.len(),
                    *requested == Some(*name),
                    forall|k: int| 0 <= k < i ==> available@[k].name@ != name@,
                decreases n - i,
            {
                if available[i].name == *name {
                    proof {
                        assert(available@[i as int].name@ == name@);
                        assert(has_interface(available@, name@));
                    }
                    return Ok(name.clone());
                }
                i = i + 1;
            }
            Err(InterfaceError::NotFound)
        },
        None => {
            let mut i: usize = 0;
            proof {
                assert(available@.skip(0) =~= available@);
            }
            while i < n
                invariant
                    i <= n,
                    n == available@.len(),
                    (*requested) is None,
                    first_usable(available@) == first_usable(available@.skip(i as int)),
                decreases n - i,
            {
                proof {
                    assert(available@.skip(i as int).drop_first() =~= available@.skip(
                        (i + 1) as int,
                    ));
                    assert(available@.skip(i as int)[0] == available@[i as int]);
                }
                let entry = &available[i];
                if entry.up && !entry.loopback {
                    return Ok(entry.name.clone());
                }
                i = i + 1;
            }
            proof {
                assert(available@.skip(n as int) =~= Seq::<InterfaceInfo>::empty());
            }
            Err(InterfaceError::NoneSuitable)
        },
    }
}

} // verus!
