use vstd::prelude::*;
use crate::err::{ExtsWalkError, IpAuthHeaderError, IpAuthHeaderSliceError, Layer, LenError, LenSource};
use crate::ip_auth_header::{auth_len, IpAuthHeader};
use crate::ip_number::{is_ipv6_ext, is_ipv6_ext_number, AUTH, IPV6_DEST_OPTIONS, IPV6_FRAG, IPV6_HOP_BY_HOP, IPV6_ROUTE};
use crate::ipv6_ext_headers::{raw_ext_len, Ipv6FragmentHeader, Ipv6RawExtHeader};

verus! {

/// The extension headers of an IPv6 packet, one slot per kind.
#[derive(Clone, Debug, PartialEq, Eq)]
pub struct Ipv6Extensions {
    pub hop_by_hop_options: Option<Ipv6RawExtHeader>,
    pub routing: Option<Ipv6RawExtHeader>,
    pub fragment: Option<Ipv6FragmentHeader>,
    pub destination_options: Option<Ipv6RawExtHeader>,
    pub auth: Option<IpAuthHeader>,
}

/// How a walk over an extension chain ends.
pub enum WalkEnd {
    /// A non-extension protocol number `next` was reached at offset `end`.
    Done { next: u8, end: nat },
    /// The extension header starting at `start` needs `required` octets.
    Short { required: nat, start: nat, layer: Layer },
    /// An authentication header has a zero length field.
    ZeroAuthLen,
}

/// Octet length of the extension header of kind `kind` at offset `pos` of `s`.
pub open spec fn ext_len_at(kind: u8, s: Seq<u8>, pos: nat) -> nat {
    if kind == IPV6_FRAG {
        8
    } else if kind == AUTH {
        auth_len(s[pos + 1int])
    } else {
        raw_ext_len(s[pos + 1int])
    }
}

/// The layer reported for a truncated extension header of kind `kind`.
pub open spec fn ext_layer(kind: u8) -> Layer {
    if kind == IPV6_FRAG {
        Layer::Ipv6FragHeader
    } else if kind == AUTH {
        Layer::IpAuthHeader
    } else {
        Layer::Ipv6ExtHeader
    }
}

/// The extension header of kind `kind` at `pos` is complete and well formed.
pub open spec fn step_ok(kind: u8, s: Seq<u8>, pos: nat) -> bool {
    &&& s.len() >= pos + 2
    &&& !(kind == AUTH && s[pos + 1int] == 0)
    &&& s.len() >= pos + ext_len_at(kind, s, pos)
}

/// Walks the extension chain of `s` from offset `pos`, where the preceding
/// header names `next`.
pub open spec fn walk(next: u8, s: Seq<u8>, pos: nat) -> WalkEnd
    decreases s.len() - pos,
{
    if !is_ipv6_ext(next) {
        WalkEnd::Done { next, end: pos }
    } else if s.len() < pos + 2 {
        WalkEnd::Short { required: 2, start: pos, layer: ext_layer(next) }
    } else if next == AUTH && s[pos + 1int] == 0 {
        WalkEnd::ZeroAuthLen
    } else if s.len() < pos + ext_len_at(next, s, pos) {
        WalkEnd::Short { required: ext_len_at(next, s, pos), start: pos, layer: ext_layer(next) }
    } else {
        walk(s[pos as int], s, pos + ext_len_at(next, s, pos))
    }
}

/// Offset of the first extension header of kind `kind` that the walk from
/// `pos` decodes.
pub open spec fn first_at(kind: u8, next: u8, s: Seq<u8>, pos: nat) -> Option<nat>
    decreases s.len() - pos,
{
    if !is_ipv6_ext(next) || !step_ok(next, s, pos) {
        None
    } else if next == kind {
        Some(pos)
    } else {
        first_at(kind, s[pos as int], s, pos + ext_len_at(next, s, pos))
    }
}

/// The error `from_slice` reports for the chain starting with `first`, if any.
pub open spec fn walk_error(first: u8, s: Seq<u8>) -> Option<IpAuthHeaderSliceError> {
    match walk(first, s, 0) {
        WalkEnd::Short { required, start, layer } => Some(IpAuthHeaderSliceError::Len(LenError {
            required_len: required as usize,
            len: (s.len() - start) as usize,
            len_source: LenSource::Slice,
            layer,
            layer_start_offset: start as usize,
        })),
        WalkEnd::ZeroAuthLen => Some(IpAuthHeaderSliceError::Content(IpAuthHeaderError::ZeroPayloadLen)),
        WalkEnd::Done { .. } => None,
    }
}

pub open spec fn raw_slot_decodes(o: Option<Ipv6RawExtHeader>, at: Option<nat>, s: Seq<u8>) -> bool {
    match (o, at) {
        (Some(h), Some(p)) => h.decodes(s.subrange(p as int, s.len() as int)),
        (None, None) => true,
        _ => false,
    }
}

pub open spec fn frag_slot_decodes(o: Option<Ipv6FragmentHeader>, at: Option<nat>, s: Seq<u8>) -> bool {
    match (o, at) {
        (Some(h), Some(p)) => h.decodes(s.subrange(p as int, s.len() as int)),
        (None, None) => true,
        _ => false,
    }
}

pub open spec fn auth_slot_decodes(o: Option<IpAuthHeader>, at: Option<nat>, s: Seq<u8>) -> bool {
    match (o, at) {
        (Some(h), Some(p)) => h.decodes(s.subrange(p as int, s.len() as int)),
        (None, None) => true,
        _ => false,
    }
}

/// The kinds of extension headers in the order `set_next_headers` chains them.
pub open spec fn canonical_kinds() -> Seq<u8> {
    seq![IPV6_HOP_BY_HOP, IPV6_ROUTE, IPV6_FRAG, IPV6_DEST_OPTIONS, AUTH]
}

impl Ipv6Extensions {
    pub open spec fn wf(&self) -> bool {
        &&& (self.hop_by_hop_options matches Some(h) ==> h.wf())
        &&& (self.routing matches Some(h) ==> h.wf())
        &&& (self.fragment matches Some(h) ==> h.wf())
        &&& (self.destination_options matches Some(h) ==> h.wf())
        &&& (self.auth matches Some(h) ==> h.wf())
    }

    pub open spec fn spec_header_len(&self) -> nat {
        (match self.hop_by_hop_options { Some(h) => h.spec_header_len(), None => 0 })
            + (match self.routing { Some(h) => h.spec_header_len(), None => 0 })
            + (match self.fragment { Some(_) => 8nat, None => 0 })
            + (match self.destination_options { Some(h) => h.spec_header_len(), None => 0 })
            + (match self.auth { Some(h) => h.spec_header_len(), None => 0 })
    }

    pub open spec fn spec_is_fragmenting_payload(&self) -> bool {
        self.fragment matches Some(f) && f.spec_is_fragmenting_payload()
    }

    /// `self` holds the first extension header of each kind of the chain at
    /// the start of `s` after a header naming `first`.
    pub open spec fn decodes(&self, first: u8, s: Seq<u8>) -> bool {
        &&& raw_slot_decodes(self.hop_by_hop_options, first_at(IPV6_HOP_BY_HOP, first, s, 0), s)
        &&& raw_slot_decodes(self.routing, first_at(IPV6_ROUTE, first, s, 0), s)
        &&& frag_slot_decodes(self.fragment, first_at(IPV6_FRAG, first, s, 0), s)
        &&& raw_slot_decodes(self.destination_options, first_at(IPV6_DEST_OPTIONS, first, s, 0), s)
        &&& auth_slot_decodes(self.auth, first_at(AUTH, first, s, 0), s)
    }

    pub open spec fn equiv(&self, o: &Ipv6Extensions) -> bool {
        &&& match (self.hop_by_hop_options, o.hop_by_hop_options) {
            (Some(a), Some(b)) => a.equiv(&b),
            (None, None) => true,
            _ => false,
        }
        &&& match (self.routing, o.routing) {
            (Some(a), Some(b)) => a.equiv(&b),
            (None, None) => true,
            _ => false,
        }
        &&& self.fragment == o.fragment
        &&& match (self.destination_options, o.destination_options) {
            (Some(a), Some(b)) => a.equiv(&b),
            (None, None) => true,
            _ => false,
        }
        &&& match (self.auth, o.auth) {
            (Some(a), Some(b)) => a.equiv(&b),
            (None, None) => true,
            _ => false,
        }
    }

    pub open spec fn slot_present(&self, k: u8) -> bool {
        if k == IPV6_HOP_BY_HOP {
            self.hop_by_hop_options is Some
        } else if k == IPV6_ROUTE {
            self.routing is Some
        } else if k == IPV6_FRAG {
            self.fragment is Some
        } else if k == IPV6_DEST_OPTIONS {
            self.destination_options is Some
        } else if k == AUTH {
            self.auth is Some
        } else {
            false
        }
    }

    pub open spec fn slot_next(&self, k: u8) -> u8 {
        if k == IPV6_HOP_BY_HOP {
            self.hop_by_hop_options.unwrap().next_header
        } else if k == IPV6_ROUTE {
            self.routing.unwrap().next_header
        } else if k == IPV6_FRAG {
            self.fragment.unwrap().next_header
        } else if k == IPV6_DEST_OPTIONS {
            self.destination_options.unwrap().next_header
        } else {
            self.auth.unwrap().next_header
        }
    }

    pub open spec fn slot_bytes(&self, k: u8) -> Seq<u8> {
        if k == IPV6_HOP_BY_HOP {
            self.hop_by_hop_options.unwrap().spec_bytes()
        } else if k == IPV6_ROUTE {
            self.routing.unwrap().spec_bytes()
        } else if k == IPV6_FRAG {
            self.fragment.unwrap().spec_bytes()
        } else if k == IPV6_DEST_OPTIONS {
            self.destination_options.unwrap().spec_bytes()
        } else {
            self.auth.unwrap().spec_bytes()
        }
    }

    /// Follows the `next_header` fields through the present extensions,
    /// starting at `next`, visiting each kind at most once; returns the kinds
    /// visited in order and the protocol number where the chain leaves them.
    pub open spec fn chain(&self, next: u8, visited: Seq<u8>, fuel: nat) -> (Seq<u8>, u8)
        decreases fuel,
    {
        if fuel == 0 || !self.slot_present(next) || visited.contains(next) {
            (visited, next)
        } else {
            self.chain(self.slot_next(next), visited.push(next), (fuel - 1) as nat)
        }
    }

    /// The first present extension, in canonical order, that the chain from
    /// `first` does not reach.
    pub open spec fn missing(&self, first: u8) -> Option<u8> {
        let kinds = self.chain(first, Seq::empty(), 5).0;
        if self.slot_present(IPV6_HOP_BY_HOP) && !kinds.contains(IPV6_HOP_BY_HOP) {
            Some(IPV6_HOP_BY_HOP)
        } else if self.slot_present(IPV6_ROUTE) && !kinds.contains(IPV6_ROUTE) {
            Some(IPV6_ROUTE)
        } else if self.slot_present(IPV6_FRAG) && !kinds.contains(IPV6_FRAG) {
            Some(IPV6_FRAG)
        } else if self.slot_present(IPV6_DEST_OPTIONS) && !kinds.contains(IPV6_DEST_OPTIONS) {
            Some(IPV6_DEST_OPTIONS)
        } else if self.slot_present(AUTH) && !kinds.contains(AUTH) {
            Some(AUTH)
        } else {
            None
        }
    }

    /// The protocol number after the extensions when the IPv6 header names `first`.
    pub open spec fn spec_next_header(&self, first: u8) -> Result<u8, ExtsWalkError> {
        match self.missing(first) {
            Some(k) => Err(ExtsWalkError::ExtNotReferenced { missing_ext: k }),
            None => Ok(self.chain(first, Seq::empty(), 5).1),
        }
    }

    /// The extensions with each present slot's next header set to the next
    /// present kind in canonical order, the last one to `last`; and the
    /// protocol number the IPv6 header must carry. Nothing else changes.
    pub open spec fn spec_with_next_headers(&self, last: u8) -> (Ipv6Extensions, u8) {
        (
            Ipv6Extensions {
                hop_by_hop_options: match self.hop_by_hop_options {
                    Some(h) => Some(Ipv6RawExtHeader { next_header: canonical_after(*self, 1, last), ..h }),
                    None => None,
                },
                routing: match self.routing {
                    Some(h) => Some(Ipv6RawExtHeader { next_header: canonical_after(*self, 2, last), ..h }),
                    None => None,
                },
                fragment: match self.fragment {
                    Some(h) => Some(Ipv6FragmentHeader { next_header: canonical_after(*self, 3, last), ..h }),
                    None => None,
                },
                destination_options: match self.destination_options {
                    Some(h) => Some(Ipv6RawExtHeader { next_header: canonical_after(*self, 4, last), ..h }),
                    None => None,
                },
                auth: match self.auth {
                    Some(h) => Some(IpAuthHeader { next_header: canonical_after(*self, 5, last), ..h }),
                    None => None,
                },
            },
            canonical_after(*self, 0, last),
        )
    }

    /// The octets of the extensions of the given kinds, in that order.
    pub open spec fn kinds_bytes(&self, kinds: Seq<u8>) -> Seq<u8>
        decreases kinds.len(),
    {
        if kinds.len() == 0 {
            Seq::empty()
        } else {
            self.kinds_bytes(kinds.drop_last()) + self.slot_bytes(kinds.last())
        }
    }

    /// On-wire octets of the extensions after an IPv6 header naming `first`:
    /// the extensions in the order of the chain.
    pub open spec fn spec_bytes(&self, first: u8) -> Seq<u8> {
        self.kinds_bytes(self.chain(first, Seq::empty(), 5).0)
    }

    /// Extensions with all slots empty.
    pub fn empty() -> (r: Ipv6Extensions)
        ensures
            r.hop_by_hop_options is None && r.routing is None && r.fragment is None
                && r.destination_options is None && r.auth is None,
    {
        Ipv6Extensions { hop_by_hop_options: None, routing: None, fragment: None, destination_options: None, auth: None }
    }

    /// Decodes the extension chain after an IPv6 header whose next header is
    /// `start`. Every extension header is consumed; the first of each kind is
    /// kept. Returns the extensions, the protocol number after the chain and
    /// the rest of `s`.
    pub fn from_slice(start: u8, s: &[u8]) -> (r: Result<(Ipv6Extensions, u8, &[u8]), IpAuthHeaderSliceError>)
        ensures
            walk_error(start, s@) is Some ==> r == Err::<(Ipv6Extensions, u8, &[u8]), _>(walk_error(start, s@).unwrap()),
            walk_error(start, s@) is None ==> (r matches Ok((e, next, rest)) && e.wf() && e.decodes(start, s@)
                && (walk(start, s@, 0) matches WalkEnd::Done { next: n, end } && n == next
                && rest@ == s@.subrange(end as int, s@.len() as int))),
    {
        let mut exts = Ipv6Extensions::empty();
        let mut next = start;
        let mut pos: usize = 0;
        while is_ipv6_ext_number(next)
            invariant
                pos <= s@.len(),
                walk(start, s@, 0) == walk(next, s@, pos as nat),
                exts.wf(),
                exts.hop_by_hop_options is None ==> first_at(IPV6_HOP_BY_HOP, start, s@, 0) == first_at(IPV6_HOP_BY_HOP, next, s@, pos as nat),
                exts.routing is None ==> first_at(IPV6_ROUTE, start, s@, 0) == first_at(IPV6_ROUTE, next, s@, pos as nat),
                exts.fragment is None ==> first_at(IPV6_FRAG, start, s@, 0) == first_at(IPV6_FRAG, next, s@, pos as nat),
                exts.destination_options is None ==> first_at(IPV6_DEST_OPTIONS, start, s@, 0) == first_at(IPV6_DEST_OPTIONS, next, s@, pos as nat),
                exts.auth is None ==> first_at(AUTH, start, s@, 0) == first_at(AUTH, next, s@, pos as nat),
                exts.hop_by_hop_options is Some ==> raw_slot_decodes(exts.hop_by_hop_options, first_at(IPV6_HOP_BY_HOP, start, s@, 0), s@),
                exts.routing is Some ==> raw_slot_decodes(exts.routing, first_at(IPV6_ROUTE, start, s@, 0), s@),
                exts.fragment is Some ==> frag_slot_decodes(exts.fragment, first_at(IPV6_FRAG, start, s@, 0), s@),
                exts.destination_options is Some ==> raw_slot_decodes(exts.destination_options, first_at(IPV6_DEST_OPTIONS, start, s@, 0), s@),
                exts.auth is Some ==> auth_slot_decodes(exts.auth, first_at(AUTH, start, s@, 0), s@),
            decreases s@.len() - pos,
        {
            let avail = s.len() - pos;
            let layer = if next == IPV6_FRAG {
                Layer::Ipv6FragHeader
            } else if next == AUTH {
                Layer::IpAuthHeader
            } else {
                Layer::Ipv6ExtHeader
            };
            if avail < 2 {
                return Err(
                    IpAuthHeaderSliceError::Len(
                        LenError {
                            required_len: 2,
                            len: avail,
                            len_source: LenSource::Slice,
                            layer,
                            layer_start_offset: pos,
                        },
                    ),
                );
            }
            let len_field = s[pos + 1];
            if next == AUTH && len_field == 0 {
                return Err(IpAuthHeaderSliceError::Content(IpAuthHeaderError::ZeroPayloadLen));
            }
            let len: usize = if next == IPV6_FRAG {
                8
            } else if next == AUTH {
                ((len_field as usize) + 2) * 4
            } else {
                ((len_field as usize) + 1) * 8
            };
            if avail < len {
                return Err(
                    IpAuthHeaderSliceError::Len(
                        LenError {
                            required_len: len,
                            len: avail,
                            len_source: LenSource::Slice,
                            layer,
                            layer_start_offset: pos,
                        },
                    ),
                );
            }
            let rest = &s[pos..s.len()];
            assert(rest@ == s@.subrange(pos as int, s@.len() as int));
            if next == IPV6_HOP_BY_HOP {
                if exts.hop_by_hop_options.is_none() {
                    exts.hop_by_hop_options = Some(Ipv6RawExtHeader::decode_unchecked(rest));
                }
            } else if next == IPV6_ROUTE {
                if exts.routing.is_none() {
                    exts.routing = Some(Ipv6RawExtHeader::decode_unchecked(rest));
                }
            } else if next == IPV6_FRAG {
                if exts.fragment.is_none() {
                    exts.fragment = Some(Ipv6FragmentHeader::decode_unchecked(rest));
                }
            } else if next == IPV6_DEST_OPTIONS {
                if exts.destination_options.is_none() {
                    exts.destination_options = Some(Ipv6RawExtHeader::decode_unchecked(rest));
                }
            } else {
                if exts.auth.is_none() {
                    exts.auth = Some(IpAuthHeader::decode_unchecked(rest));
                }
            }
            next = s[pos];
            pos = pos + len;
        }
        Ok((exts, next, &s[pos..s.len()]))
    }

    fn present(&self, k: u8) -> (r: bool)
        ensures
            r == self.slot_present(k),
    {
        if k == IPV6_HOP_BY_HOP {
            self.hop_by_hop_options.is_some()
        } else if k == IPV6_ROUTE {
            self.routing.is_some()
        } else if k == IPV6_FRAG {
            self.fragment.is_some()
        } else if k == IPV6_DEST_OPTIONS {
            self.destination_options.is_some()
        } else if k == AUTH {
            self.auth.is_some()
        } else {
            false
        }
    }

    fn next_of(&self, k: u8) -> (r: u8)
        requires
            self.slot_present(k),
        ensures
            r == self.slot_next(k),
    {
        if k == IPV6_HOP_BY_HOP {
            self.hop_by_hop_options.as_ref().unwrap().next_header
        } else if k == IPV6_ROUTE {
            self.routing.as_ref().unwrap().next_header
        } else if k == IPV6_FRAG {
            self.fragment.as_ref().unwrap().next_header
        } else if k == IPV6_DEST_OPTIONS {
            self.destination_options.as_ref().unwrap().next_header
        } else {
            self.auth.as_ref().unwrap().next_header
        }
    }

    fn write_slot(&self, out: &mut Vec<u8>, k: u8)
        requires
            self.wf(),
            self.slot_present(k),
        ensures
            final(out)@ == old(out)@ + self.slot_bytes(k),
    {
        if k == IPV6_HOP_BY_HOP {
            self.hop_by_hop_options.as_ref().unwrap().write(out);
        } else if k == IPV6_ROUTE {
            self.routing.as_ref().unwrap().write(out);
        } else if k == IPV6_FRAG {
            self.fragment.as_ref().unwrap().write(out);
        } else if k == IPV6_DEST_OPTIONS {
            self.destination_options.as_ref().unwrap().write(out);
        } else {
            self.auth.as_ref().unwrap().write(out);
        }
    }

    /// Follows the chain from `first`; returns the kinds visited and where it leaves them.
    fn walk_chain(&self, first: u8) -> (r: (Vec<u8>, u8))
        ensures
            (r.0@, r.1) == self.chain(first, Seq::empty(), 5),
    {
        let mut visited: Vec<u8> = Vec::new();
        let mut next = first;
        while visited.len() < 5 && self.present(next) && !contains(&visited, next)
            invariant
                visited@.len() <= 5,
                self.chain(first, Seq::empty(), 5) == self.chain(next, visited@, (5 - visited@.len()) as nat),
            decreases 5 - visited@.len(),
        {
            let k = next;
            next = self.next_of(k);
            visited.push(k);
        }
        (visited, next)
    }

    fn find_missing(&self, kinds: &Vec<u8>) -> (r: Option<u8>)
        ensures
            r == (if self.slot_present(IPV6_HOP_BY_HOP) && !kinds@.contains(IPV6_HOP_BY_HOP) {
                Some(IPV6_HOP_BY_HOP)
            } else if self.slot_present(IPV6_ROUTE) && !kinds@.contains(IPV6_ROUTE) {
                Some(IPV6_ROUTE)
            } else if self.slot_present(IPV6_FRAG) && !kinds@.contains(IPV6_FRAG) {
                Some(IPV6_FRAG)
            } else if self.slot_present(IPV6_DEST_OPTIONS) && !kinds@.contains(IPV6_DEST_OPTIONS) {
                Some(IPV6_DEST_OPTIONS)
            } else if self.slot_present(AUTH) && !kinds@.contains(AUTH) {
                Some(AUTH)
            } else {
                None
            }),
    {
        if self.hop_by_hop_options.is_some() && !contains(kinds, IPV6_HOP_BY_HOP) {
            Some(IPV6_HOP_BY_HOP)
        } else if self.routing.is_some() && !contains(kinds, IPV6_ROUTE) {
            Some(IPV6_ROUTE)
        } else if self.fragment.is_some() && !contains(kinds, IPV6_FRAG) {
            Some(IPV6_FRAG)
        } else if self.destination_options.is_some() && !contains(kinds, IPV6_DEST_OPTIONS) {
            Some(IPV6_DEST_OPTIONS)
        } else if self.auth.is_some() && !contains(kinds, AUTH) {
            Some(AUTH)
        } else {
            None
        }
    }

    /// Returns the protocol number after the extensions when the IPv6 header
    /// names `first`; fails if a present extension is not reached by the chain.
    pub fn next_header(&self, first: u8) -> (r: Result<u8, ExtsWalkError>)
        ensures
            r == self.spec_next_header(first),
    {
        let (kinds, last) = self.walk_chain(first);
        match self.find_missing(&kinds) {
            Some(k) => Err(ExtsWalkError::ExtNotReferenced { missing_ext: k }),
            None => Ok(last),
        }
    }

    /// Appends the extensions, in the order of the chain from `first`, to
    /// `out`; fails, writing nothing, if a present extension is not reached.
    pub fn write(&self, out: &mut Vec<u8>, first: u8) -> (r: Result<(), ExtsWalkError>)
        requires
            self.wf(),
        ensures
            r is Ok <==> self.spec_next_header(first) is Ok,
            r matches Err(e) ==> self.spec_next_header(first) == Err::<u8, _>(e) && final(out)@ == old(out)@,
            r is Ok ==> final(out)@ == old(out)@ + self.spec_bytes(first),
    {
        let (kinds, _last) = self.walk_chain(first);
        match self.find_missing(&kinds) {
            Some(k) => {
                return Err(ExtsWalkError::ExtNotReferenced { missing_ext: k });
            },
            None => {},
        }
        proof {
            lemma_chain_present(*self, first, Seq::empty(), 5);
        }
        let mut i: usize = 0;
        while i < kinds.len()
            invariant
                self.wf(),
                i <= kinds@.len(),
                forall|j: int| 0 <= j < kinds@.len() ==> self.slot_present(#[trigger] kinds@[j]),
                out@ == old(out)@ + self.kinds_bytes(kinds@.subrange(0, i as int)),
            decreases kinds@.len() - i,
        {
            let k = kinds[i];
            self.write_slot(out, k);
            proof {
                assert(kinds@.subrange(0, i + 1).drop_last() =~= kinds@.subrange(0, i as int));
            }
            i = i + 1;
        }
        assert(kinds@.subrange(0, kinds@.len() as int) =~= kinds@);
        Ok(())
    }

    /// Sets the next header fields so that the present extensions are chained
    /// in canonical order (hop-by-hop, routing, fragment, destination options,
    /// authentication) and the last one names `last`; returns the protocol
    /// number the IPv6 header must carry.
    pub fn set_next_headers(&mut self, last: u8) -> (r: u8)
        ensures
            final(self).wf() == old(self).wf(),
            final(self).spec_header_len() == old(self).spec_header_len(),
            final(self).spec_next_header(r) == Ok::<u8, ExtsWalkError>(last),
            forall|k: u8| final(self).slot_present(k) == old(self).slot_present(k),
            (*final(self), r) == old(self).spec_with_next_headers(last),
    {
        let mut next = last;
        if let Some(h) = &mut self.auth {
            h.next_header = next;
            next = AUTH;
        }
        if let Some(h) = &mut self.destination_options {
            h.next_header = next;
            next = IPV6_DEST_OPTIONS;
        }
        if let Some(h) = &mut self.fragment {
            h.next_header = next;
            next = IPV6_FRAG;
        }
        if let Some(h) = &mut self.routing {
            h.next_header = next;
            next = IPV6_ROUTE;
        }
        if let Some(h) = &mut self.hop_by_hop_options {
            h.next_header = next;
            next = IPV6_HOP_BY_HOP;
        }
        proof {
            reveal_with_fuel(canonical_after, 6);
            let e = *self;
            assert(canonical_kinds()[0] == IPV6_HOP_BY_HOP);
            assert(canonical_kinds()[1] == IPV6_ROUTE);
            assert(canonical_kinds()[2] == IPV6_FRAG);
            assert(canonical_kinds()[3] == IPV6_DEST_OPTIONS);
            assert(canonical_kinds()[4] == AUTH);
            assert forall|k: nat| k < 5 && e.slot_present(#[trigger] canonical_kinds()[k as int]) implies e.slot_next(
                canonical_kinds()[k as int],
            ) == canonical_after(e, k + 1, last) by {
                if k == 0 {
                } else if k == 1 {
                } else if k == 2 {
                } else if k == 3 {
                } else {
                }
            }
            lemma_canonical_chain(e, last);
        }
        next
    }

    /// True if every present extension fits its on-wire fields.
    pub fn is_valid(&self) -> (r: bool)
        ensures
            r == self.wf(),
    {
        let hop = match &self.hop_by_hop_options {
            Some(h) => h.is_valid(),
            None => true,
        };
        let routing = match &self.routing {
            Some(h) => h.is_valid(),
            None => true,
        };
        let fragment = match &self.fragment {
            Some(h) => h.is_valid(),
            None => true,
        };
        let dest = match &self.destination_options {
            Some(h) => h.is_valid(),
            None => true,
        };
        let auth = match &self.auth {
            Some(h) => h.is_valid(),
            None => true,
        };
        hop && routing && fragment && dest && auth
    }

    /// Serialized length of all present extensions in octets.
    pub fn header_len(&self) -> (r: usize)
        requires
            self.wf(),
        ensures
            r == self.spec_header_len(),
    {
        let mut n: usize = 0;
        if let Some(h) = &self.hop_by_hop_options {
            n = n + h.header_len();
        }
        if let Some(h) = &self.routing {
            n = n + h.header_len();
        }
        if let Some(h) = &self.fragment {
            n = n + h.header_len();
        }
        if let Some(h) = &self.destination_options {
            n = n + h.header_len();
        }
        if let Some(h) = &self.auth {
            n = n + h.header_len();
        }
        n
    }

    /// True if a fragment header is present with the M flag or a non-zero offset.
    pub fn is_fragmenting_payload(&self) -> (r: bool)
        ensures
            r == self.spec_is_fragmenting_payload(),
    {
        match &self.fragment {
            Some(f) => f.is_fragmenting_payload(),
            None => false,
        }
    }

    /// True if no extension header is present.
    pub fn is_empty(&self) -> (r: bool)
        ensures
            r == (self.hop_by_hop_options is None && self.routing is None && self.fragment is None
                && self.destination_options is None && self.auth is None),
    {
        self.hop_by_hop_options.is_none() && self.routing.is_none() && self.fragment.is_none()
            && self.destination_options.is_none() && self.auth.is_none()
    }
}


fn contains(v: &Vec<u8>, x: u8) -> (r: bool)
    ensures
        r == v@.contains(x),
{
    let mut i: usize = 0;
    while i < v.len()
        invariant
            i <= v@.len(),
            forall|j: int| 0 <= j < i ==> v@[j] != x,
        decreases v@.len() - i,
    {
        if v[i] == x {
            return true;
        }
        i = i + 1;
    }
    false
}

/// Every kind that the chain visits is present.
pub proof fn lemma_chain_present(e: Ipv6Extensions, next: u8, visited: Seq<u8>, fuel: nat)
    requires
        forall|j: int| 0 <= j < visited.len() ==> e.slot_present(#[trigger] visited[j]),
    ensures
        forall|j: int| 0 <= j < e.chain(next, visited, fuel).0.len() ==> e.slot_present(#[trigger] e.chain(next, visited, fuel).0[j]),
    decreases fuel,
{
    if !(fuel == 0 || !e.slot_present(next) || visited.contains(next)) {
        let v2 = visited.push(next);
        assert forall|j: int| 0 <= j < v2.len() implies e.slot_present(#[trigger] v2[j]) by {
            if j < visited.len() {
                assert(v2[j] == visited[j]);
            }
        }
        lemma_chain_present(e, e.slot_next(next), v2, (fuel - 1) as nat);
        assert(e.chain(next, visited, fuel) == e.chain(e.slot_next(next), v2, (fuel - 1) as nat));
    } else {
        assert(e.chain(next, visited, fuel) == (visited, next));
    }
}


/// The protocol number that the first present extension after `k` (in
/// canonical order) has, or `last` if none follows.
pub open spec fn canonical_after(e: Ipv6Extensions, k: nat, last: u8) -> u8
    decreases 5 - k,
{
    if k >= 5 {
        last
    } else if e.slot_present(canonical_kinds()[k as int]) {
        canonical_kinds()[k as int]
    } else {
        canonical_after(e, k + 1, last)
    }
}

/// The extensions are linked in canonical order, ending in `last`.
pub open spec fn canonically_linked(e: Ipv6Extensions, last: u8) -> bool {
    forall|k: nat| k < 5 && e.slot_present(#[trigger] canonical_kinds()[k as int]) ==> e.slot_next(
        canonical_kinds()[k as int],
    ) == canonical_after(e, k + 1, last)
}

/// The present extension kinds among the first `k` canonical kinds, in order.
pub open spec fn present_prefix(e: Ipv6Extensions, k: nat) -> Seq<u8>
    decreases k,
{
    if k == 0 {
        Seq::empty()
    } else if e.slot_present(canonical_kinds()[k - 1]) {
        present_prefix(e, (k - 1) as nat).push(canonical_kinds()[k - 1])
    } else {
        present_prefix(e, (k - 1) as nat)
    }
}

proof fn lemma_present_prefix(e: Ipv6Extensions, k: nat)
    requires
        k <= 5,
    ensures
        present_prefix(e, k).len() <= k,
        forall|x: u8| #[trigger] present_prefix(e, k).contains(x) <==> (e.slot_present(x) && exists|j: int|
            0 <= j < k && canonical_kinds()[j] == x),
    decreases k,
{
    if k > 0 {
        lemma_present_prefix(e, (k - 1) as nat);
        let p = present_prefix(e, (k - 1) as nat);
        let c = canonical_kinds()[k - 1];
        assert forall|x: u8| #[trigger] present_prefix(e, k).contains(x) <==> (e.slot_present(x) && exists|j: int|
            0 <= j < k && canonical_kinds()[j] == x) by {
            if e.slot_present(c) {
                assert(present_prefix(e, k) == p.push(c));
                if p.push(c).contains(x) && x != c {
                    let i = choose|i: int| 0 <= i < p.push(c).len() && p.push(c)[i] == x;
                    assert(p[i] == x);
                }
                if x == c {
                    assert(p.push(c)[p.len() as int] == x);
                } else if p.contains(x) {
                    let i = choose|i: int| 0 <= i < p.len() && p[i] == x;
                    assert(p.push(c)[i] == x);
                }
            }
            if e.slot_present(x) && exists|j: int| 0 <= j < k && canonical_kinds()[j] == x {
                let j = choose|j: int| 0 <= j < k && canonical_kinds()[j] == x;
                if j < k - 1 {
                    assert(p.contains(x));
                }
            }
        }
    }
}

proof fn lemma_chain_from(e: Ipv6Extensions, k: nat, last: u8)
    requires
        canonically_linked(e, last),
        k <= 5,
    ensures
        e.chain(canonical_after(e, k, last), present_prefix(e, k), (5 - present_prefix(e, k).len()) as nat)
            == (present_prefix(e, 5), last),
    decreases 5 - k,
{
    lemma_present_prefix(e, k);
    lemma_present_prefix(e, 5);
    assert(canonical_kinds()[0] == IPV6_HOP_BY_HOP);
    assert(canonical_kinds()[1] == IPV6_ROUTE);
    assert(canonical_kinds()[2] == IPV6_FRAG);
    assert(canonical_kinds()[3] == IPV6_DEST_OPTIONS);
    assert(canonical_kinds()[4] == AUTH);
    if k == 5 {
        if e.slot_present(last) {
            if last == IPV6_HOP_BY_HOP {
                assert(canonical_kinds()[0] == last);
            } else if last == IPV6_ROUTE {
                assert(canonical_kinds()[1] == last);
            } else if last == IPV6_FRAG {
                assert(canonical_kinds()[2] == last);
            } else if last == IPV6_DEST_OPTIONS {
                assert(canonical_kinds()[3] == last);
            } else {
                assert(canonical_kinds()[4] == last);
            }
            assert(present_prefix(e, 5).contains(last));
        }
    } else {
        lemma_chain_from(e, k + 1, last);
        lemma_present_prefix(e, k + 1);
        let c = canonical_kinds()[k as int];
        if e.slot_present(c) {
            if present_prefix(e, k).contains(c) {
                let j = choose|j: int| 0 <= j < k && canonical_kinds()[j] == c;
                assert(false);
            }
            assert(e.slot_next(c) == canonical_after(e, k + 1, last));
        }
    }
}

/// A canonically linked chain reaches every present extension and ends in `last`.
pub proof fn lemma_canonical_chain(e: Ipv6Extensions, last: u8)
    requires
        canonically_linked(e, last),
    ensures
        e.spec_next_header(canonical_after(e, 0, last)) == Ok::<u8, ExtsWalkError>(last),
{
    lemma_chain_from(e, 0, last);
    lemma_present_prefix(e, 5);
    assert(present_prefix(e, 0) =~= Seq::<u8>::empty());
    assert(canonical_kinds()[0] == IPV6_HOP_BY_HOP);
    assert(canonical_kinds()[1] == IPV6_ROUTE);
    assert(canonical_kinds()[2] == IPV6_FRAG);
    assert(canonical_kinds()[3] == IPV6_DEST_OPTIONS);
    assert(canonical_kinds()[4] == AUTH);
}

/// `ks` is a path through the present extensions that starts at `start`,
/// follows their next header fields and leaves them at `t`.
pub open spec fn linked(e: Ipv6Extensions, start: u8, ks: Seq<u8>, t: u8) -> bool {
    &&& ks.len() == 0 ==> t == start
    &&& ks.len() > 0 ==> ks[0] == start && e.slot_next(ks.last()) == t
    &&& forall|i: int| 0 <= i < ks.len() - 1 ==> e.slot_next(#[trigger] ks[i]) == ks[i + 1]
    &&& forall|i: int| 0 <= i < ks.len() ==> e.slot_present(#[trigger] ks[i])
}

/// The chain visits distinct present kinds along their next header fields.
pub proof fn lemma_chain_shape(e: Ipv6Extensions, next: u8, visited: Seq<u8>, fuel: nat)
    requires
        visited.no_duplicates(),
    ensures
        ({
            let (v2, t) = e.chain(next, visited, fuel);
            &&& v2.no_duplicates()
            &&& v2.len() >= visited.len()
            &&& v2.subrange(0, visited.len() as int) == visited
            &&& linked(e, next, v2.subrange(visited.len() as int, v2.len() as int), t)
        }),
    decreases fuel,
{
    if fuel == 0 || !e.slot_present(next) || visited.contains(next) {
        assert(visited.subrange(0, visited.len() as int) =~= visited);
    } else {
        let v1 = visited.push(next);
        assert(v1.no_duplicates()) by {
            assert forall|i: int, j: int| 0 <= i < v1.len() && 0 <= j < v1.len() && i != j implies v1[i] != v1[j] by {
                if i == visited.len() as int {
                    assert(v1[j] == visited[j]);
                } else if j == visited.len() as int {
                    assert(v1[i] == visited[i]);
                }
            }
        }
        lemma_chain_shape(e, e.slot_next(next), v1, (fuel - 1) as nat);
        let (v2, t) = e.chain(e.slot_next(next), v1, (fuel - 1) as nat);
        assert(e.chain(next, visited, fuel) == (v2, t));
        let ks1 = v2.subrange(v1.len() as int, v2.len() as int);
        let ks = v2.subrange(visited.len() as int, v2.len() as int);
        assert(v2.subrange(0, visited.len() as int) =~= v2.subrange(0, v1.len() as int).subrange(0, visited.len() as int));
        assert(ks[0] == v2[visited.len() as int]);
        assert(v2[visited.len() as int] == v2.subrange(0, v1.len() as int)[visited.len() as int]);
        assert(ks =~= seq![next] + ks1);
        if ks1.len() > 0 {
            assert(ks.last() == ks1.last());
        }
        assert forall|i: int| 0 <= i < ks.len() - 1 implies e.slot_next(#[trigger] ks[i]) == ks[i + 1] by {
            if i > 0 {
                assert(ks[i] == ks1[i - 1]);
                assert(ks[i + 1] == ks1[i]);
            }
        }
        assert forall|i: int| 0 <= i < ks.len() implies e.slot_present(#[trigger] ks[i]) by {
            if i > 0 {
                assert(ks[i] == ks1[i - 1]);
            }
        }
    }
}

/// Octet offset of the extension at index `i` of `ks` in `e.kinds_bytes(ks)`.
pub open spec fn kind_off(e: Ipv6Extensions, ks: Seq<u8>, i: int) -> nat {
    e.kinds_bytes(ks.subrange(0, i)).len()
}

/// Offset of the extension of kind `k` among `ks[i..]`, if it is there.
pub open spec fn kind_offset(e: Ipv6Extensions, ks: Seq<u8>, i: int, k: u8) -> Option<nat>
    decreases ks.len() - i,
{
    if i < 0 || i >= ks.len() {
        None
    } else if ks[i] == k {
        Some(kind_off(e, ks, i))
    } else {
        kind_offset(e, ks, i + 1, k)
    }
}

/// The octets of the extension at index `i` follow those of the ones before it.
pub proof fn lemma_kinds_bytes_split(e: Ipv6Extensions, ks: Seq<u8>, i: int, j: int)
    requires
        0 <= i <= j <= ks.len(),
    ensures
        e.kinds_bytes(ks.subrange(0, j)).subrange(0, kind_off(e, ks, i) as int) == e.kinds_bytes(ks.subrange(0, i)),
        kind_off(e, ks, i) <= kind_off(e, ks, j),
        i < ks.len() ==> e.kinds_bytes(ks.subrange(0, i + 1)) == e.kinds_bytes(ks.subrange(0, i)) + e.slot_bytes(ks[i]),
    decreases j - i,
{
    if i < ks.len() {
        assert(ks.subrange(0, i + 1).drop_last() =~= ks.subrange(0, i));
    }
    if i == j {
        assert(e.kinds_bytes(ks.subrange(0, j)).subrange(0, kind_off(e, ks, i) as int) =~= e.kinds_bytes(ks.subrange(0, i)));
    } else {
        lemma_kinds_bytes_split(e, ks, i, j - 1);
        assert(ks.subrange(0, j).drop_last() =~= ks.subrange(0, j - 1));
        let a = e.kinds_bytes(ks.subrange(0, j - 1));
        assert(e.kinds_bytes(ks.subrange(0, j)) == a + e.slot_bytes(ks[j - 1]));
        assert((a + e.slot_bytes(ks[j - 1])).subrange(0, kind_off(e, ks, i) as int) =~= a.subrange(0, kind_off(e, ks, i) as int));
    }
}

/// What the walker sees at the start of a present extension's octets.
pub proof fn lemma_slot_step(e: Ipv6Extensions, c: u8, rest: Seq<u8>)
    requires
        e.wf(),
        e.slot_present(c),
    ensures
        ({
            let b = e.slot_bytes(c) + rest;
            &&& is_ipv6_ext(c)
            &&& b.len() >= 2
            &&& b[0] == e.slot_next(c)
            &&& !(c == AUTH && b[1] == 0)
            &&& ext_len_at(c, b, 0) == e.slot_bytes(c).len()
        }),
{
    if c == IPV6_HOP_BY_HOP {
        crate::ipv6_ext_headers::lemma_raw_ext_round_trip(e.hop_by_hop_options.unwrap(), rest);
    } else if c == IPV6_ROUTE {
        crate::ipv6_ext_headers::lemma_raw_ext_round_trip(e.routing.unwrap(), rest);
    } else if c == IPV6_FRAG {
        crate::ipv6_ext_headers::lemma_fragment_round_trip(e.fragment.unwrap(), rest);
    } else if c == IPV6_DEST_OPTIONS {
        crate::ipv6_ext_headers::lemma_raw_ext_round_trip(e.destination_options.unwrap(), rest);
    } else {
        crate::ip_auth_header::lemma_auth_round_trip(e.auth.unwrap(), rest);
    }
}

/// Walking the octets of a linked path of extensions, followed by a payload
/// after a non-extension protocol number, visits exactly that path.
pub proof fn lemma_walk_path(e: Ipv6Extensions, ks: Seq<u8>, t: u8, payload: Seq<u8>, i: int)
    requires
        e.wf(),
        0 <= i <= ks.len(),
        !is_ipv6_ext(t),
        ks.no_duplicates(),
        forall|j: int| 0 <= j < ks.len() ==> e.slot_present(#[trigger] ks[j]),
        forall|j: int| 0 <= j < ks.len() - 1 ==> e.slot_next(#[trigger] ks[j]) == ks[j + 1],
        ks.len() > 0 ==> e.slot_next(ks.last()) == t,
    ensures
        ({
            let w = e.kinds_bytes(ks) + payload;
            let cur = if i < ks.len() { ks[i] } else { t };
            &&& walk(cur, w, kind_off(e, ks, i)) == (WalkEnd::Done { next: t, end: kind_off(e, ks, ks.len() as int) })
            &&& forall|k: u8| first_at(k, cur, w, kind_off(e, ks, i)) == #[trigger] kind_offset(e, ks, i, k)
        }),
    decreases ks.len() - i,
{
    let w = e.kinds_bytes(ks) + payload;
    assert(ks.subrange(0, ks.len() as int) =~= ks);
    if i == ks.len() {
        assert forall|k: u8| first_at(k, t, w, kind_off(e, ks, i)) == #[trigger] kind_offset(e, ks, i, k) by {}
    } else {
        let c = ks[i];
        let off = kind_off(e, ks, i);
        lemma_kinds_bytes_split(e, ks, i, ks.len() as int);
        lemma_kinds_bytes_split(e, ks, i + 1, ks.len() as int);
        let next_off = kind_off(e, ks, i + 1);
        assert(next_off == off + e.slot_bytes(c).len());
        let rest = w.subrange(next_off as int, w.len() as int);
        let b = w.subrange(off as int, w.len() as int);
        lemma_bytes_at(e, ks, payload, i);
        lemma_slot_step(e, c, rest);
        assert(w[off as int] == b[0]);
        assert(w[off + 1int] == b[1]);
        assert(ext_len_at(c, w, off) == ext_len_at(c, b, 0));
        let nxt = if i + 1 < ks.len() { ks[i + 1] } else { t };
        assert(e.slot_next(c) == nxt);
        lemma_walk_path(e, ks, t, payload, i + 1);
        assert(walk(c, w, off) == walk(nxt, w, next_off));
        assert forall|k: u8| first_at(k, c, w, off) == #[trigger] kind_offset(e, ks, i, k) by {
            assert(first_at(k, nxt, w, next_off) == kind_offset(e, ks, i + 1, k));
        }
    }
}

/// The octets from the extension at index `i` on start with its own octets.
pub proof fn lemma_bytes_at(e: Ipv6Extensions, ks: Seq<u8>, payload: Seq<u8>, i: int)
    requires
        0 <= i < ks.len(),
    ensures
        ({
            let w = e.kinds_bytes(ks) + payload;
            &&& kind_off(e, ks, i + 1) == kind_off(e, ks, i) + e.slot_bytes(ks[i]).len()
            &&& kind_off(e, ks, i + 1) <= w.len()
            &&& w.subrange(kind_off(e, ks, i) as int, w.len() as int) == e.slot_bytes(ks[i]) + w.subrange(
                kind_off(e, ks, i + 1) as int,
                w.len() as int,
            )
        }),
{
    let w = e.kinds_bytes(ks) + payload;
    let c = ks[i];
    let off = kind_off(e, ks, i);
    assert(ks.subrange(0, ks.len() as int) =~= ks);
    lemma_kinds_bytes_split(e, ks, i, ks.len() as int);
    lemma_kinds_bytes_split(e, ks, i + 1, ks.len() as int);
    let next_off = kind_off(e, ks, i + 1);
    let rest = w.subrange(next_off as int, w.len() as int);
    let b = w.subrange(off as int, w.len() as int);
    let kb = e.kinds_bytes(ks);
    assert(kb.subrange(0, next_off as int) == e.kinds_bytes(ks.subrange(0, i)) + e.slot_bytes(c));
    assert(b =~= e.slot_bytes(c) + rest) by {
        assert forall|x: int| 0 <= x < b.len() implies b[x] == (e.slot_bytes(c) + rest)[x] by {
            if x < e.slot_bytes(c).len() {
                assert(b[x] == kb[off + x]);
                assert(kb[off + x] == kb.subrange(0, next_off as int)[off + x]);
            }
        }
    }
}

/// Where a kind occurs in a path without repetitions, `kind_offset` finds it.
pub proof fn lemma_kind_offset_found(e: Ipv6Extensions, ks: Seq<u8>, i: int, j: int)
    requires
        ks.no_duplicates(),
        0 <= i <= j < ks.len(),
    ensures
        kind_offset(e, ks, i, ks[j]) == Some(kind_off(e, ks, j)),
    decreases j - i,
{
    if i < j {
        lemma_kind_offset_found(e, ks, i + 1, j);
    }
}

/// A kind that a path does not hold has no offset in it.
pub proof fn lemma_kind_offset_absent(e: Ipv6Extensions, ks: Seq<u8>, i: int, k: u8)
    requires
        0 <= i,
        !ks.contains(k),
    ensures
        kind_offset(e, ks, i, k) is None,
    decreases ks.len() - i,
{
    if i < ks.len() {
        assert(ks[i] != k);
        lemma_kind_offset_absent(e, ks, i + 1, k);
    }
}

/// The summed length of the present extensions of the kinds that `ks` holds.
pub open spec fn held_len(e: Ipv6Extensions, ks: Seq<u8>) -> nat {
    (if ks.contains(IPV6_HOP_BY_HOP) { e.slot_bytes(IPV6_HOP_BY_HOP).len() } else { 0 })
        + (if ks.contains(IPV6_ROUTE) { e.slot_bytes(IPV6_ROUTE).len() } else { 0 })
        + (if ks.contains(IPV6_FRAG) { e.slot_bytes(IPV6_FRAG).len() } else { 0 })
        + (if ks.contains(IPV6_DEST_OPTIONS) { e.slot_bytes(IPV6_DEST_OPTIONS).len() } else { 0 })
        + (if ks.contains(AUTH) { e.slot_bytes(AUTH).len() } else { 0 })
}

/// The octets of a path without repetitions are as long as its kinds' octets together.
pub proof fn lemma_kinds_bytes_len(e: Ipv6Extensions, ks: Seq<u8>)
    requires
        ks.no_duplicates(),
        forall|j: int| 0 <= j < ks.len() ==> is_ipv6_ext(#[trigger] ks[j]),
    ensures
        e.kinds_bytes(ks).len() == held_len(e, ks),
    decreases ks.len(),
{
    if ks.len() > 0 {
        let init = ks.drop_last();
        let c = ks.last();
        assert(init.no_duplicates()) by {
            assert forall|a: int, b: int| 0 <= a < init.len() && 0 <= b < init.len() && a != b implies init[a] != init[b] by {
                assert(init[a] == ks[a] && init[b] == ks[b]);
            }
        }
        assert forall|j: int| 0 <= j < init.len() implies is_ipv6_ext(#[trigger] init[j]) by {
            assert(init[j] == ks[j]);
        }
        lemma_kinds_bytes_len(e, init);
        assert(!init.contains(c)) by {
            if init.contains(c) {
                let a = choose|a: int| 0 <= a < init.len() && init[a] == c;
                assert(ks[a] == ks[ks.len() - 1]);
            }
        }
        assert(ks =~= init.push(c));
        assert forall|x: u8| #[trigger] ks.contains(x) <==> (init.contains(x) || x == c) by {
            if ks.contains(x) && x != c {
                let a = choose|a: int| 0 <= a < ks.len() && ks[a] == x;
                assert(a < ks.len() - 1);
                assert(init[a] == x);
            }
            if init.contains(x) {
                let a = choose|a: int| 0 <= a < init.len() && init[a] == x;
                assert(ks[a] == x);
            }
            if x == c {
                assert(ks[ks.len() - 1] == x);
            }
        }
        assert(is_ipv6_ext(ks[ks.len() - 1]));
    }
}

/// Decoding the octets that `write` emits for extensions whose chain from
/// `first` reaches all of them and ends in a non-extension protocol number,
/// followed by a payload, visits them in chain order, ends at that protocol
/// number and gives back the extensions.
pub proof fn lemma_exts_round_trip(e: Ipv6Extensions, first: u8, payload: Seq<u8>)
    requires
        e.wf(),
        e.spec_next_header(first) is Ok,
        !is_ipv6_ext(e.spec_next_header(first).unwrap()),
    ensures
        ({
            let eb = e.spec_bytes(first);
            let w = eb + payload;
            &&& eb.len() == e.spec_header_len()
            &&& walk(first, w, 0) == (WalkEnd::Done { next: e.spec_next_header(first).unwrap(), end: eb.len() })
            &&& forall|e2: Ipv6Extensions| #[trigger] e2.decodes(first, w) ==> e2.equiv(&e)
                && e2.spec_is_fragmenting_payload() == e.spec_is_fragmenting_payload()
        }),
{
    let (ks, t) = e.chain(first, Seq::empty(), 5);
    lemma_chain_shape(e, first, Seq::empty(), 5);
    assert(ks.subrange(0, ks.len() as int) =~= ks);
    assert(linked(e, first, ks, t));
    let eb = e.spec_bytes(first);
    let w = eb + payload;
    assert forall|j: int| 0 <= j < ks.len() implies is_ipv6_ext(#[trigger] ks[j]) by {
        assert(e.slot_present(ks[j]));
    }
    lemma_kinds_bytes_len(e, ks);
    assert forall|k: u8| #[trigger] e.slot_present(k) <==> ks.contains(k) by {
        if ks.contains(k) {
            let j = choose|j: int| 0 <= j < ks.len() && ks[j] == k;
            assert(e.slot_present(ks[j]));
        }
    }
    assert(held_len(e, ks) == e.spec_header_len());
    lemma_walk_path(e, ks, t, payload, 0);
    assert(ks.subrange(0, 0) =~= Seq::<u8>::empty());
    assert(kind_off(e, ks, 0) == 0);
    let cur0 = if 0 < ks.len() { ks[0] } else { t };
    assert(cur0 == first);
    assert forall|k: u8| e.slot_present(k) implies #[trigger] first_at(k, first, w, 0) matches Some(p) && ({
        let b = w.subrange(p as int, w.len() as int);
        b == e.slot_bytes(k) + w.subrange((p + e.slot_bytes(k).len()) as int, w.len() as int)
    }) by {
        assert(first_at(k, cur0, w, kind_off(e, ks, 0)) == kind_offset(e, ks, 0, k));
        let j = choose|j: int| 0 <= j < ks.len() && ks[j] == k;
        lemma_kind_offset_found(e, ks, 0, j);
        lemma_bytes_at(e, ks, payload, j);
    }
    assert forall|k: u8| !e.slot_present(k) implies #[trigger] first_at(k, first, w, 0) is None by {
        assert(first_at(k, cur0, w, kind_off(e, ks, 0)) == kind_offset(e, ks, 0, k));
        lemma_kind_offset_absent(e, ks, 0, k);
    }
    assert forall|e2: Ipv6Extensions| #[trigger] e2.decodes(first, w) implies e2.equiv(&e)
        && e2.spec_is_fragmenting_payload() == e.spec_is_fragmenting_payload() by {
        lemma_slot_round_trip(e, e2, first, w);
    }
}

/// Each slot decodes back from the octets at its offset.
proof fn lemma_slot_round_trip(e: Ipv6Extensions, e2: Ipv6Extensions, first: u8, w: Seq<u8>)
    requires
        e.wf(),
        e2.decodes(first, w),
        forall|k: u8| e.slot_present(k) ==> (#[trigger] first_at(k, first, w, 0) matches Some(p) && ({
            let b = w.subrange(p as int, w.len() as int);
            b == e.slot_bytes(k) + w.subrange((p + e.slot_bytes(k).len()) as int, w.len() as int)
        })),
        forall|k: u8| !e.slot_present(k) ==> #[trigger] first_at(k, first, w, 0) is None,
    ensures
        e2.equiv(&e),
        e2.spec_is_fragmenting_payload() == e.spec_is_fragmenting_payload(),
{
    let fa = first_at(IPV6_HOP_BY_HOP, first, w, 0);
    if e.slot_present(IPV6_HOP_BY_HOP) {
        let p = fa.unwrap();
        crate::ipv6_ext_headers::lemma_raw_ext_round_trip(e.hop_by_hop_options.unwrap(), w.subrange((p + e.slot_bytes(IPV6_HOP_BY_HOP).len()) as int, w.len() as int));
    }
    let fa = first_at(IPV6_ROUTE, first, w, 0);
    if e.slot_present(IPV6_ROUTE) {
        let p = fa.unwrap();
        crate::ipv6_ext_headers::lemma_raw_ext_round_trip(e.routing.unwrap(), w.subrange((p + e.slot_bytes(IPV6_ROUTE).len()) as int, w.len() as int));
    }
    let fa = first_at(IPV6_FRAG, first, w, 0);
    if e.slot_present(IPV6_FRAG) {
        let p = fa.unwrap();
        crate::ipv6_ext_headers::lemma_fragment_round_trip(e.fragment.unwrap(), w.subrange((p + e.slot_bytes(IPV6_FRAG).len()) as int, w.len() as int));
    }
    let fa = first_at(IPV6_DEST_OPTIONS, first, w, 0);
    if e.slot_present(IPV6_DEST_OPTIONS) {
        let p = fa.unwrap();
        crate::ipv6_ext_headers::lemma_raw_ext_round_trip(e.destination_options.unwrap(), w.subrange((p + e.slot_bytes(IPV6_DEST_OPTIONS).len()) as int, w.len() as int));
    }
    let fa = first_at(AUTH, first, w, 0);
    if e.slot_present(AUTH) {
        let p = fa.unwrap();
        crate::ip_auth_header::lemma_auth_round_trip(e.auth.unwrap(), w.subrange((p + e.slot_bytes(AUTH).len()) as int, w.len() as int));
    }
}

} // verus!
