//! The prime-time challenge: answer "is this integer prime?" for a stream
//! of textual requests.  This module holds the verified sequential core:
//! the sieve-backed cache, the byte-exact response formatter, and the
//! request-to-response transform.  The request grammar lives in
//! [`parse`], and the shared-lock scheduling around the cache lives
//! outside the library.

use vstd::prelude::*;

pub mod parse;
pub mod sieve;

use crate::problem1::sieve::{spec_flag, spec_grown_len, PrimeSieve};

verus! {

/// The exact bytes of a successful response: a fixed-order record naming
/// the method and the verdict, closed by one line feed.
pub open spec fn spec_success_resp(value: bool) -> Seq<u8> {
    spec_resp_head() + (if value {
        seq!['t' as u8, 'r' as u8, 'u' as u8, 'e' as u8]
    } else {
        seq!['f' as u8, 'a' as u8, 'l' as u8, 's' as u8, 'e' as u8]
    }) + seq!['}' as u8, '\n' as u8]
}

/// The response bytes up to (and including) the colon before the verdict.
pub open spec fn spec_resp_head() -> Seq<u8> {
    seq![
        '{' as u8, '"' as u8, 'm' as u8, 'e' as u8, 't' as u8, 'h' as u8, 'o' as u8, 'd' as u8,
        '"' as u8, ':' as u8, '"' as u8, 'i' as u8, 's' as u8, 'P' as u8, 'r' as u8, 'i' as u8,
        'm' as u8, 'e' as u8, '"' as u8, ',' as u8, '"' as u8, 'p' as u8, 'r' as u8, 'i' as u8,
        'm' as u8, 'e' as u8, '"' as u8, ':' as u8,
    ]
}

/// The exact bytes answering a malformed request: an empty record and a
/// line feed.
pub open spec fn spec_fallback_resp() -> Seq<u8> {
    seq!['{' as u8, '}' as u8, '\n' as u8]
}

/// The prime-time service: the shared primality cache together with the
/// request-to-response transform.
pub struct PrimeTime {
    sieve: PrimeSieve,
}

impl Default for PrimeTime {
    /// A service around a fresh, empty cache.
    fn default() -> (d: Self)
        ensures
            d.cache().wf(),
            d.cache().spec_len() == 0,
    {
        PrimeTime { sieve: PrimeSieve::with_capacity(1000) }
    }
}

impl PrimeTime {
    /// The cache the service currently holds.
    pub closed spec fn cache(&self) -> PrimeSieve {
        self.sieve
    }

    /// Render the success record for a verdict, byte for byte.
    pub fn form_resp(value: bool) -> (resp: Vec<u8>)
        ensures
            resp@ == spec_success_resp(value),
    {
        let mut r: Vec<u8> = Vec::new();
        r.push('{' as u8);
        r.push('"' as u8);
        r.push('m' as u8);
        r.push('e' as u8);
        r.push('t' as u8);
        r.push('h' as u8);
        r.push('o' as u8);
        r.push('d' as u8);
        r.push('"' as u8);
        r.push(':' as u8);
        r.push('"' as u8);
        r.push('i' as u8);
        r.push('s' as u8);
        r.push('P' as u8);
        r.push('r' as u8);
        r.push('i' as u8);
        r.push('m' as u8);
        r.push('e' as u8);
        r.push('"' as u8);
        r.push(',' as u8);
        r.push('"' as u8);
        r.push('p' as u8);
        r.push('r' as u8);
        r.push('i' as u8);
        r.push('m' as u8);
        r.push('e' as u8);
        r.push('"' as u8);
        r.push(':' as u8);
        if value {
            r.push('t' as u8);
            r.push('r' as u8);
            r.push('u' as u8);
            r.push('e' as u8);
        } else {
            r.push('f' as u8);
            r.push('a' as u8);
            r.push('l' as u8);
            r.push('s' as u8);
            r.push('e' as u8);
        }
        r.push('}' as u8);
        r.push('\n' as u8);
        proof {
            assert(r@ =~= spec_success_resp(value));
        }
        r
    }

    /// Render the answer to a malformed request, byte for byte.
    pub fn fallback_resp() -> (resp: Vec<u8>)
        ensures
            resp@ == spec_fallback_resp(),
    {
        let mut r: Vec<u8> = Vec::new();
        r.push('{' as u8);
        r.push('}' as u8);
        r.push('\n' as u8);
        proof {
            assert(r@ =~= spec_fallback_resp());
        }
        r
    }

    /// Turn the bytes of one request into the bytes of its response: the
    /// fallback record for a malformed request, otherwise the verdict the
    /// cache holds for the query, growing the cache first when it does
    /// not cover the query yet.
    pub fn call(&mut self, req: Vec<u8>) -> (resp: Vec<u8>)
        requires
            old(self).cache().wf(),
        ensures
            final(self).cache().wf(),
            parse::spec_parse(req@) is None ==> resp@ == spec_fallback_resp() && final(self).cache()
                == old(self).cache(),
            parse::spec_parse(req@) matches Some(n) ==> resp@ == spec_success_resp(
                n >= 1 && spec_flag(n as int),
            ) && final(self).cache().spec_len() == spec_grown_len(
                old(self).cache().spec_len(),
                n as nat,
            ) && (old(self).cache().spec_len() == spec_grown_len(
                old(self).cache().spec_len(),
                n as nat,
            ) ==> final(self).cache()@ == old(self).cache()@),
    {
        let num32 = match parse::all(req.as_slice()) {
            Some(n) => n,
            None => {
                return Self::fallback_resp();
            },
        };
        let num = num32 as usize;
        let is_prime = match self.sieve.get(num) {
            Some(p) => p,
            None => self.sieve.expand(num),
        };
        Self::form_resp(is_prime)
    }
}

} // verus!
