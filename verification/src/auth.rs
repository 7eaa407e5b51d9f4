//! Credential store and handshake rules.
//!
//! A credential file holds one `user:sha1_hex_of_password` entry per line.
//! The transport layer reads raw bytes and hands them here: this module
//! parses the entries, scans the client's greeting for the capability byte,
//! splits the credential at its colons and decides authentication, all as
//! pure functions over bytes.  Only the SHA-1 digest itself comes from an
//! outside crate, behind a named trusted result.

use vstd::prelude::*;
use vstd::string::StringExecFns;
use vstd::utf8::{encode_utf8, valid_utf8};

verus! {

/// The 40 lowercase hex characters of the SHA-1 digest of a byte sequence.
pub uninterp spec fn sha1_hex(data: Seq<u8>) -> Seq<char>;

/// Relies on sha1_smol's `Sha1`/`Digest`: the digest of the bytes fed by
/// `update`, rendered by its `Display` as five 32-bit words of eight
/// lowercase hex digits each — 40 characters that depend on the input bytes
/// alone.
#[verifier::external_body]
fn sha1_hex_of(data: &[u8]) -> (r: String)
    ensures
        r@ == sha1_hex(data@),
        r@.len() == 40,
{
    let mut hasher = sha1_smol::Sha1::new();
    hasher.update(data);
    hasher.digest().to_string()
}

/// Compute the SHA-1 digest of a password as 40 lowercase hex characters.
pub fn sha1_hex_digest(password: &[u8]) -> (r: String)
    ensures
        r@ == sha1_hex(password@),
        r@.len() == 40,
{
    sha1_hex_of(password)
}

/// An account entry: user name and the SHA-1 hex digest of the password.
pub struct Account {
    pub user: String,
    pub password_hash: String,
}

/// The parsed credential store.
pub struct AccountStore {
    pub entries: Vec<Account>,
}

/// Position of the first newline at or after `i` (or the end of the data).
pub open spec fn line_end_from(data: Seq<u8>, i: int) -> int
    decreases data.len() - i,
{
    if i < 0 || i >= data.len() {
        data.len() as int
    } else if data[i] == 10 {
        i
    } else {
        line_end_from(data, i + 1)
    }
}

/// `stop` moved left past trailing ASCII whitespace (space, tab, carriage
/// return), not below `start`.
pub open spec fn trim_end_from(data: Seq<u8>, start: int, stop: int) -> int
    decreases stop,
{
    if start < stop <= data.len() && 0 <= start && (data[stop - 1] == 32 || data[stop - 1] == 9
        || data[stop - 1] == 13) {
        trim_end_from(data, start, stop - 1)
    } else {
        stop
    }
}

/// Position of the first colon in `[i, stop)` (or `stop`).
pub open spec fn colon_from(data: Seq<u8>, i: int, stop: int) -> int
    decreases stop - i,
{
    if i < 0 || i >= stop || stop > data.len() {
        stop
    } else if data[i] == 58 {
        i
    } else {
        colon_from(data, i + 1, stop)
    }
}

pub proof fn lemma_line_end_from_bounds(data: Seq<u8>, i: int)
    requires
        0 <= i <= data.len(),
    ensures
        i <= line_end_from(data, i) <= data.len(),
    decreases data.len() - i,
{
    if i < data.len() && data[i] != 10 {
        lemma_line_end_from_bounds(data, i + 1);
    }
}

/// The credential file's entries as byte pairs: each line up to a newline,
/// trailing whitespace trimmed, split at its first colon; lines without a
/// colon or with invalid UTF-8 on either side are skipped.
pub open spec fn spec_parse_entries(data: Seq<u8>, start: int) -> Seq<(Seq<u8>, Seq<u8>)>
    decreases data.len() - start,
    via spec_parse_entries_decreases
{
    if start < 0 || start >= data.len() {
        Seq::empty()
    } else {
        let end = line_end_from(data, start);
        let stop = trim_end_from(data, start, end);
        let colon = colon_from(data, start, stop);
        let next = if end < data.len() {
            end + 1
        } else {
            data.len() as int
        };
        let rest = spec_parse_entries(data, next);
        if colon < stop && valid_utf8(data.subrange(start, colon)) && valid_utf8(
            data.subrange(colon + 1, stop),
        ) {
            seq![(data.subrange(start, colon), data.subrange(colon + 1, stop))] + rest
        } else {
            rest
        }
    }
}

#[via_fn]
proof fn spec_parse_entries_decreases(data: Seq<u8>, start: int) {
    if 0 <= start < data.len() {
        lemma_line_end_from_bounds(data, start);
    }
}

/// The entries' contents as the byte pairs they were parsed from.
pub open spec fn entry_views(s: Seq<Account>) -> Seq<(Seq<u8>, Seq<u8>)> {
    s.map_values(|a: Account| (encode_utf8(a.user@), encode_utf8(a.password_hash@)))
}

impl AccountStore {
    pub open spec fn spec_entries(self) -> Seq<Account> {
        self.entries@
    }

    /// Whether some entry has this user name and exactly the SHA-1 digest
    /// of this password.
    pub open spec fn spec_accepts(self, user: Seq<char>, password: Seq<u8>) -> bool {
        exists|i: int|
            0 <= i < self.entries@.len() && (#[trigger] self.entries@[i]).user@ == user
                && self.entries@[i].password_hash@ == sha1_hex(password)
    }

    /// An empty store: every handshake fails.
    pub fn new() -> (r: AccountStore)
        ensures
            r.spec_entries().len() == 0,
    {
        AccountStore { entries: Vec::new() }
    }

    /// Parse a credential file: one `user:sha1_hex` entry per line, split
    /// at the first colon, trailing whitespace trimmed; lines without a
    /// colon or with invalid UTF-8 are skipped ([`spec_parse_entries`] is
    /// the exact statement).  A missing or empty file simply yields an
    /// empty store.  Every parsed line is kept: a user named on several
    /// lines is accepted with any of the stored digests.
    #[verifier::loop_isolation(false)]
    pub fn parse(data: &[u8]) -> (r: AccountStore)
        ensures
            entry_views(r.spec_entries()) == spec_parse_entries(data@, 0),
    {
        let mut entries: Vec<Account> = Vec::new();
        let n = data.len();
        let mut start: usize = 0;
        proof {
            assert(entry_views(entries@) =~= Seq::<(Seq<u8>, Seq<u8>)>::empty());
        }
        while start < n
            invariant
                start <= n == data@.len(),
                spec_parse_entries(data@, 0) =~= entry_views(entries@) + spec_parse_entries(
                    data@,
                    start as int,
                ),
            decreases n - start,
        {
            // find end of line
            let mut end: usize = start;
            while end < n && data[end] != 10
                invariant
                    start <= end <= n == data@.len(),
                    line_end_from(data@, start as int) == line_end_from(data@, end as int),
                decreases n - end,
            {
                end = end + 1;
            }
            proof {
                assert(line_end_from(data@, start as int) == end);
            }
            // trim trailing whitespace
            let mut stop: usize = end;
            while stop > start && (data[stop - 1] == 32 || data[stop - 1] == 9 || data[stop - 1]
                == 13)
                invariant
                    start <= stop <= end <= n == data@.len(),
                    trim_end_from(data@, start as int, end as int) == trim_end_from(
                        data@,
                        start as int,
                        stop as int,
                    ),
                decreases stop,
            {
                stop = stop - 1;
            }
            proof {
                assert(trim_end_from(data@, start as int, end as int) == stop);
            }
            // split at the first colon
            let mut colon: usize = start;
            while colon < stop && data[colon] != 58
                invariant
                    start <= colon <= stop <= n == data@.len(),
                    colon_from(data@, start as int, stop as int) == colon_from(
                        data@,
                        colon as int,
                        stop as int,
                    ),
                decreases stop - colon,
            {
                colon = colon + 1;
            }
            proof {
                assert(colon_from(data@, start as int, stop as int) == colon);
            }
            let ghost entries_before = entries@;
            if colon < stop {
                let user_bytes = copy_range(data, start, colon);
                let hash_bytes = copy_range(data, colon + 1, stop);
                match (crate::deserialize::string_from_utf8(user_bytes), crate::deserialize::string_from_utf8(hash_bytes)) {
                    (Some(user), Some(password_hash)) => {
                        entries.push(Account { user, password_hash });
                        proof {
                            assert(entry_views(entries@) =~= entry_views(entries_before).push(
                                (
                                    data@.subrange(start as int, colon as int),
                                    data@.subrange(colon + 1, stop as int),
                                ),
                            ));
                        }
                    },
                    _ => {},
                }
            }
            start = if end < n {
                end + 1
            } else {
                n
            };
            proof {
                assert(spec_parse_entries(data@, 0) =~= entry_views(entries@)
                    + spec_parse_entries(data@, start as int));
            }
        }
        proof {
            assert(spec_parse_entries(data@, start as int) =~= Seq::<(Seq<u8>, Seq<u8>)>::empty());
            assert(entry_views(entries@) =~= spec_parse_entries(data@, 0));
        }
        AccountStore { entries }
    }

    /// Decide authentication: accepted exactly when some entry carries
    /// this user name together with the SHA-1 hex digest of the supplied
    /// password.
    #[verifier::loop_isolation(false)]
    pub fn authenticate(&self, user: &str, password: &[u8]) -> (r: bool)
        ensures
            r == self.spec_accepts(user@, password@),
    {
        let digest = sha1_hex_of(password);
        let user_s = String::from_str(user);
        let mut i: usize = 0;
        while i < self.entries.len()
            invariant
                i <= self.entries@.len(),
                digest@ == sha1_hex(password@),
                user_s@ == user@,
                forall|j: int|
                    0 <= j < i ==> !((#[trigger] self.entries@[j]).user@ == user@
                        && self.entries@[j].password_hash@ == sha1_hex(password@)),
            decreases self.entries@.len() - i,
        {
            if self.entries[i].user.eq(&user_s) && self.entries[i].password_hash.eq(&digest) {
                return true;
            }
            i = i + 1;
        }
        false
    }
}

/// Copy the byte range `[start, end)` out of a slice.
fn copy_range(bytes: &[u8], start: usize, end: usize) -> (r: Vec<u8>)
    requires
        start <= end <= bytes@.len(),
    ensures
        r@ == bytes@.subrange(start as int, end as int),
{
    let mut r: Vec<u8> = Vec::new();
    let mut i: usize = start;
    while i < end
        invariant
            start <= i <= end <= bytes@.len(),
            r@ =~= bytes@.subrange(start as int, i as int),
        decreases end - i,
    {
        r.push(bytes[i]);
        proof {
            assert(bytes@.subrange(start as int, i + 1) =~= bytes@.subrange(
                start as int,
                i as int,
            ).push(bytes@[i as int]));
        }
        i = i + 1;
    }
    r
}

/// `j` is the position of the first capability byte (0x03 or 0x06) in `s`.
pub open spec fn first_capability_at(s: Seq<u8>, j: int) -> bool {
    0 <= j < s.len() && (s[j] == 3 || s[j] == 6) && (forall|i: int|
        0 <= i < j ==> !(s[i] == 3 || s[i] == 6))
}

/// Whether a full credential (the bytes before the capability byte) is
/// accepted: split at its first colon, the password running to the next
/// colon (or the end), the user name must be UTF-8 and the pair must match
/// the store.
pub open spec fn credential_accepted(store: AccountStore, cred: Seq<u8>) -> bool {
    exists|c1: int, c2: int|
        #![trigger cred.subrange(c1 + 1, c2)]
        {
            &&& 0 <= c1 < cred.len() && cred[c1] == 58 && (forall|i: int|
                0 <= i < c1 ==> cred[i] != 58)
            &&& c1 < c2 <= cred.len() && (c2 == cred.len() || cred[c2] == 58) && (forall|i: int|
                c1 < i < c2 ==> cred[i] != 58)
            &&& (exists|u: Seq<char>|
                encode_utf8(u) == cred.subrange(0, c1) && store.spec_accepts(
                    u,
                    cred.subrange(c1 + 1, c2),
                ))
        }
}

/// One step of the server-side handshake.
pub enum HandshakeStep {
    /// No capability byte yet: keep reading.
    NeedMore,
    /// Credential accepted; echo this capability byte back.
    Accept(u8),
    /// Credential malformed or not accepted; close the connection.
    Reject,
}

/// Digest one received chunk of the client's greeting.  Before the
/// capability byte arrives the bytes are buffered; once it arrives, the
/// buffered bytes plus the chunk's prefix form `user:password`, which is
/// split at its first colon (the password ends at the next colon, if any)
/// and checked against the store.
#[verifier::loop_isolation(false)]
pub fn process_client_chunk(buffered: &mut Vec<u8>, chunk: &[u8], store: &AccountStore) -> (r:
    HandshakeStep)
    ensures
        r is NeedMore <==> (forall|i: int|
            0 <= i < chunk@.len() ==> !(chunk@[i] == 3 || chunk@[i] == 6)),
        r is NeedMore ==> final(buffered)@ == old(buffered)@ + chunk@,
        !(r is NeedMore) ==> final(buffered)@ == old(buffered)@,
        r matches HandshakeStep::Accept(cap) ==> (cap == 3 || cap == 6),
        forall|idx: int|
            #![trigger first_capability_at(chunk@, idx)]
            first_capability_at(chunk@, idx) ==> {
                &&& (r matches HandshakeStep::Accept(cap) ==> cap == chunk@[idx])
                &&& (r is Accept <==> credential_accepted(
                    *store,
                    old(buffered)@ + chunk@.take(idx),
                ))
                &&& (r is Reject <==> !credential_accepted(
                    *store,
                    old(buffered)@ + chunk@.take(idx),
                ))
            },
{
    // locate the capability byte
    let mut idx: usize = 0;
    let n = chunk.len();
    while idx < n && chunk[idx] != 3 && chunk[idx] != 6
        invariant
            idx <= n == chunk@.len(),
            forall|i: int| 0 <= i < idx ==> !(chunk@[i] == 3 || chunk@[i] == 6),
        decreases n - idx,
    {
        idx = idx + 1;
    }
    if idx >= n {
        crate::serialize::push_bytes(buffered, chunk);
        return HandshakeStep::NeedMore;
    }
    let capability = chunk[idx];
    let ghost cred_spec = old(buffered)@ + chunk@.take(idx as int);
    // assemble the full credential
    let mut credential: Vec<u8> = Vec::new();
    let mut i: usize = 0;
    while i < buffered.len()
        invariant
            i <= buffered@.len(),
            credential@ =~= buffered@.take(i as int),
        decreases buffered@.len() - i,
    {
        credential.push(buffered[i]);
        i = i + 1;
    }
    let mut j: usize = 0;
    while j < idx
        invariant
            j <= idx <= chunk@.len(),
            credential@ =~= buffered@ + chunk@.take(j as int),
        decreases idx - j,
    {
        credential.push(chunk[j]);
        j = j + 1;
    }
    proof {
        assert(credential@ =~= cred_spec);
    }
    // split `user:password` at the first colon; the password ends at the
    // next colon, if any
    let clen = credential.len();
    let mut c1: usize = 0;
    while c1 < clen && credential[c1] != 58
        invariant
            c1 <= clen == credential@.len(),
            forall|i2: int| 0 <= i2 < c1 ==> credential@[i2] != 58,
        decreases clen - c1,
    {
        c1 = c1 + 1;
    }
    if c1 >= clen {
        // no colon at all: no split of this credential can be accepted
        proof {
            assert(!credential_accepted(*store, cred_spec)) by {
                if credential_accepted(*store, cred_spec) {
                    let (x1, x2): (int, int) = choose|x1: int, x2: int|
                        #![trigger cred_spec.subrange(x1 + 1, x2)]
                        {
                            &&& 0 <= x1 < cred_spec.len() && cred_spec[x1] == 58 && (forall|
                                i2: int,
                            |
                                0 <= i2 < x1 ==> cred_spec[i2] != 58)
                            &&& x1 < x2 <= cred_spec.len() && (x2 == cred_spec.len()
                                || cred_spec[x2] == 58) && (forall|i2: int|
                                x1 < i2 < x2 ==> cred_spec[i2] != 58)
                            &&& (exists|u: Seq<char>|
                                encode_utf8(u) == cred_spec.subrange(0, x1)
                                    && store.spec_accepts(u, cred_spec.subrange(x1 + 1, x2)))
                        };
                    assert(cred_spec[x1] != 58);
                }
            };
        }
        return HandshakeStep::Reject;
    }
    let mut c2: usize = c1 + 1;
    while c2 < clen && credential[c2] != 58
        invariant
            c1 + 1 <= c2 <= clen == credential@.len(),
            forall|i2: int| c1 < i2 < c2 ==> credential@[i2] != 58,
        decreases clen - c2,
    {
        c2 = c2 + 1;
    }
    // any split satisfying the spec uses exactly this first colon and this
    // password end
    proof {
        assert forall|x1: int, x2: int|
            #![trigger cred_spec.subrange(x1 + 1, x2)]
            (0 <= x1 < cred_spec.len() && cred_spec[x1] == 58 && (forall|i2: int|
                0 <= i2 < x1 ==> cred_spec[i2] != 58) && x1 < x2 <= cred_spec.len() && (x2
                == cred_spec.len() || cred_spec[x2] == 58) && (forall|i2: int|
                x1 < i2 < x2 ==> cred_spec[i2] != 58)) implies x1 == c1 && x2 == c2 by {
            if x1 < c1 {
                assert(credential@[x1] != 58);
            }
            if c1 < x1 {
                assert(cred_spec[c1 as int] != 58);
            }
            if x2 < c2 {
                assert(credential@[x2] != 58);
            }
            if c2 < x2 {
                assert(cred_spec[c2 as int] != 58);
            }
        };
    }
    let user_bytes = copy_range(credential.as_slice(), 0, c1);
    let pass_bytes = copy_range(credential.as_slice(), c1 + 1, c2);
    let user = match crate::deserialize::string_from_utf8(user_bytes) {
        Some(u) => u,
        None => {
            // the user name is not UTF-8: nothing can encode to it
            proof {
                assert(!credential_accepted(*store, cred_spec)) by {
                    if credential_accepted(*store, cred_spec) {
                        let u0: Seq<char> = choose|u0: Seq<char>|
                            encode_utf8(u0) == cred_spec.subrange(0, c1 as int)
                                && store.spec_accepts(
                                u0,
                                cred_spec.subrange(c1 + 1, c2 as int),
                            );
                        vstd::utf8::encode_utf8_valid_utf8(u0);
                    }
                };
            }
            return HandshakeStep::Reject;
        },
    };
    if store.authenticate(user.as_str(), pass_bytes.as_slice()) {
        proof {
            assert(credential_accepted(*store, cred_spec)) by {
                assert(encode_utf8(user@) == cred_spec.subrange(0, c1 as int));
                assert(store.spec_accepts(user@, cred_spec.subrange(c1 + 1, c2 as int)));
                assert(cred_spec.subrange(c1 + 1, c2 as int) == cred_spec.subrange(
                    c1 + 1,
                    c2 as int,
                ));
            };
        }
        HandshakeStep::Accept(capability)
    } else {
        // the stored digests rule this pair out; no other character
        // sequence encodes to the same user bytes
        proof {
            assert(!credential_accepted(*store, cred_spec)) by {
                if credential_accepted(*store, cred_spec) {
                    let u0: Seq<char> = choose|u0: Seq<char>|
                        encode_utf8(u0) == cred_spec.subrange(0, c1 as int) && store.spec_accepts(
                            u0,
                            cred_spec.subrange(c1 + 1, c2 as int),
                        );
                    vstd::utf8::encode_utf8_decode_utf8(u0);
                    vstd::utf8::encode_utf8_decode_utf8(user@);
                    assert(u0 == user@);
                }
            };
        }
        HandshakeStep::Reject
    }
}

/// The bytes a client sends to open a connection:
/// `user:password`, the capability byte, then 0x00.
pub fn client_greeting(credential: &str, capability: u8) -> (r: Vec<u8>)
    ensures
        r@ == encode_utf8(credential@) + seq![capability, 0u8],
{
    let mut out: Vec<u8> = Vec::new();
    crate::serialize::push_bytes(&mut out, credential.as_bytes());
    out.push(capability);
    out.push(0);
    proof {
        assert(out@ =~= encode_utf8(credential@) + seq![capability, 0u8]);
    }
    out
}

} // verus!
