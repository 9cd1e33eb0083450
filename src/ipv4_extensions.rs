use vstd::prelude::*;
use crate::err::{ExtsWalkError, IpAuthHeaderSliceError};
use crate::ip_auth_header::{auth_len, IpAuthHeader};
use crate::ip_number::AUTH;

verus! {

/// The extension headers of an IPv4 packet: at most one authentication header.
#[derive(Clone, Debug, PartialEq, Eq)]
pub struct Ipv4Extensions {
    pub auth: Option<IpAuthHeader>,
}

impl Ipv4Extensions {
    pub open spec fn wf(&self) -> bool {
        self.auth matches Some(a) ==> a.wf()
    }

    pub open spec fn spec_header_len(&self) -> nat {
        match self.auth {
            Some(a) => a.spec_header_len(),
            None => 0,
        }
    }

    pub open spec fn spec_bytes(&self) -> Seq<u8> {
        match self.auth {
            Some(a) => a.spec_bytes(),
            None => Seq::empty(),
        }
    }

    /// The protocol number after the extensions when the IPv4 header names
    /// `first`. An authentication header that is present but not named, or
    /// named but not present, is an error.
    pub open spec fn spec_next_header(&self, first: u8) -> Result<u8, ExtsWalkError> {
        match self.auth {
            Some(a) => if first == AUTH {
                Ok(a.next_header)
            } else {
                Err(ExtsWalkError::ExtNotReferenced { missing_ext: AUTH })
            },
            None => if first == AUTH {
                Err(ExtsWalkError::ExtNotReferenced { missing_ext: AUTH })
            } else {
                Ok(first)
            },
        }
    }

    /// The extensions with their next header fields set so that the chain
    /// ends in `last`, and the protocol number the IPv4 header must carry.
    pub open spec fn spec_with_next_headers(&self, last: u8) -> (Ipv4Extensions, u8) {
        match self.auth {
            Some(a) => (Ipv4Extensions { auth: Some(IpAuthHeader { next_header: last, ..a }) }, AUTH),
            None => (*self, last),
        }
    }

    pub open spec fn equiv(&self, o: &Ipv4Extensions) -> bool {
        match (self.auth, o.auth) {
            (Some(a), Some(b)) => a.equiv(&b),
            (None, None) => true,
            _ => false,
        }
    }

    /// The error `from_slice` reports when the IPv4 header names `first`.
    pub open spec fn slice_error(first: u8, s: Seq<u8>) -> Option<IpAuthHeaderSliceError> {
        if first == AUTH {
            IpAuthHeader::slice_error(s)
        } else {
            None
        }
    }

    /// Octets that the extensions occupy at the start of `s` (when decoding succeeds).
    pub open spec fn spec_consumed(first: u8, s: Seq<u8>) -> nat {
        if first == AUTH {
            auth_len(s[1])
        } else {
            0
        }
    }

    /// `self` holds the extensions at the start of `s` after a header naming `first`,
    /// and `next` is the protocol number after them.
    pub open spec fn decodes(&self, first: u8, s: Seq<u8>, next: u8) -> bool {
        if first == AUTH {
            self.auth matches Some(a) && a.decodes(s) && next == a.next_header
        } else {
            self.auth is None && next == first
        }
    }

    /// Decodes the extensions after an IPv4 header whose protocol is `start`;
    /// returns them with the protocol number after them and the rest of `s`.
    pub fn from_slice(start: u8, s: &[u8]) -> (r: Result<(Ipv4Extensions, u8, &[u8]), IpAuthHeaderSliceError>)
        ensures
            Ipv4Extensions::slice_error(start, s@) is Some ==> r == Err::<(Ipv4Extensions, u8, &[u8]), _>(
                Ipv4Extensions::slice_error(start, s@).unwrap(),
            ),
            Ipv4Extensions::slice_error(start, s@) is None ==> (r matches Ok((e, next, rest))
                && e.decodes(start, s@, next) && e.wf()
                && e.spec_header_len() == Ipv4Extensions::spec_consumed(start, s@)
                && rest@ == s@.subrange(Ipv4Extensions::spec_consumed(start, s@) as int, s@.len() as int)),
    {
        if start == AUTH {
            match IpAuthHeader::from_slice(s) {
                Ok((h, rest)) => {
                    let next = h.next_header;
                    Ok((Ipv4Extensions { auth: Some(h) }, next, rest))
                },
                Err(e) => Err(e),
            }
        } else {
            proof {
                assert(s@.subrange(0, s@.len() as int) =~= s@);
            }
            Ok((Ipv4Extensions { auth: None }, start, s))
        }
    }

    /// True if every present extension fits its on-wire fields.
    pub fn is_valid(&self) -> (r: bool)
        ensures
            r == self.wf(),
    {
        match &self.auth {
            Some(a) => a.is_valid(),
            None => true,
        }
    }

    /// Serialized length of the extensions in octets.
    pub fn header_len(&self) -> (r: usize)
        requires
            self.wf(),
        ensures
            r == self.spec_header_len(),
    {
        match &self.auth {
            Some(a) => a.header_len(),
            None => 0,
        }
    }

    /// Appends the extensions to `out`; fails, writing nothing, if an
    /// extension is not referenced by the IPv4 header's protocol `start`, or
    /// `start` names an authentication header that is not present.
    pub fn write(&self, out: &mut Vec<u8>, start: u8) -> (r: Result<(), ExtsWalkError>)
        requires
            self.wf(),
        ensures
            r is Ok <==> self.spec_next_header(start) is Ok,
            r matches Err(e) ==> self.spec_next_header(start) == Err::<u8, _>(e) && final(out)@ == old(out)@,
            r is Ok ==> final(out)@ == old(out)@ + self.spec_bytes(),
    {
        match &self.auth {
            Some(a) => {
                if start != AUTH {
                    return Err(ExtsWalkError::ExtNotReferenced { missing_ext: AUTH });
                }
                a.write(out);
                Ok(())
            },
            None => {
                if start == AUTH {
                    return Err(ExtsWalkError::ExtNotReferenced { missing_ext: AUTH });
                }
                assert(old(out)@ + self.spec_bytes() =~= old(out)@);
                Ok(())
            },
        }
    }

    /// Returns the protocol number after the extensions when the IPv4
    /// header's protocol is `first`.
    pub fn next_header(&self, first: u8) -> (r: Result<u8, ExtsWalkError>)
        ensures
            r == self.spec_next_header(first),
    {
        match &self.auth {
            Some(a) => {
                if first == AUTH {
                    Ok(a.next_header)
                } else {
                    Err(ExtsWalkError::ExtNotReferenced { missing_ext: AUTH })
                }
            },
            None => {
                if first == AUTH {
                    Err(ExtsWalkError::ExtNotReferenced { missing_ext: AUTH })
                } else {
                    Ok(first)
                }
            },
        }
    }

    /// Sets the next header fields so that the chain ends in `last`; returns
    /// the protocol number the IPv4 header must carry.
    pub fn set_next_headers(&mut self, last: u8) -> (r: u8)
        ensures
            final(self).wf() == old(self).wf(),
            final(self).spec_header_len() == old(self).spec_header_len(),
            (*final(self), r) == old(self).spec_with_next_headers(last),
            !(old(self).auth is None && last == AUTH) ==> final(self).spec_next_header(r) == Ok::<u8, ExtsWalkError>(last),
    {
        match &mut self.auth {
            Some(a) => {
                a.next_header = last;
                AUTH
            },
            None => last,
        }
    }

    /// True if no extension header is present.
    pub fn is_empty(&self) -> (r: bool)
        ensures
            r == self.auth is None,
    {
        self.auth.is_none()
    }
}

} // verus!
