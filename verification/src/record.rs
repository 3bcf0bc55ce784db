//! The record types a zone can hold, and a stored record.
use vstd::prelude::*;
use vstd::string::*;
use vstd::utf8::is_ascii_chars;

use crate::text::{eq_text, to_uppercase, upper_chars, uppercase};

verus! {

/// A record type that the database can hold.
#[derive(Clone, Copy, Debug, PartialEq, Eq, Structural)]
pub enum RecordKind {
    A,
    NS,
    CNAME,
    SOA,
    PTR,
    MX,
    TXT,
    AAAA,
    SRV,
    CERT,
    DNAME,
    DS,
    SSHFP,
    RRSIG,
    NSEC,
    DNSKEY,
    NSEC3,
    NSEC3PARAM,
    TLSA,
    ZONEMD,
    SVCB,
    HTTPS,
    URI,
    ANAME,
}

/// The mnemonic of a record type.
pub open spec fn mnemonic(kind: RecordKind) -> Seq<char> {
    match kind {
        RecordKind::A => seq!['A'],
        RecordKind::NS => seq!['N', 'S'],
        RecordKind::CNAME => seq!['C', 'N', 'A', 'M', 'E'],
        RecordKind::SOA => seq!['S', 'O', 'A'],
        RecordKind::PTR => seq!['P', 'T', 'R'],
        RecordKind::MX => seq!['M', 'X'],
        RecordKind::TXT => seq!['T', 'X', 'T'],
        RecordKind::AAAA => seq!['A', 'A', 'A', 'A'],
        RecordKind::SRV => seq!['S', 'R', 'V'],
        RecordKind::CERT => seq!['C', 'E', 'R', 'T'],
        RecordKind::DNAME => seq!['D', 'N', 'A', 'M', 'E'],
        RecordKind::DS => seq!['D', 'S'],
        RecordKind::SSHFP => seq!['S', 'S', 'H', 'F', 'P'],
        RecordKind::RRSIG => seq!['R', 'R', 'S', 'I', 'G'],
        RecordKind::NSEC => seq!['N', 'S', 'E', 'C'],
        RecordKind::DNSKEY => seq!['D', 'N', 'S', 'K', 'E', 'Y'],
        RecordKind::NSEC3 => seq!['N', 'S', 'E', 'C', '3'],
        RecordKind::NSEC3PARAM => seq!['N', 'S', 'E', 'C', '3', 'P', 'A', 'R', 'A', 'M'],
        RecordKind::TLSA => seq!['T', 'L', 'S', 'A'],
        RecordKind::ZONEMD => seq!['Z', 'O', 'N', 'E', 'M', 'D'],
        RecordKind::SVCB => seq!['S', 'V', 'C', 'B'],
        RecordKind::HTTPS => seq!['H', 'T', 'T', 'P', 'S'],
        RecordKind::URI => seq!['U', 'R', 'I'],
        RecordKind::ANAME => seq!['A', 'N', 'A', 'M', 'E'],
    }
}

/// The code of a record type on the wire.
pub open spec fn type_code(kind: RecordKind) -> u16 {
    match kind {
        RecordKind::A => 1,
        RecordKind::NS => 2,
        RecordKind::CNAME => 5,
        RecordKind::SOA => 6,
        RecordKind::PTR => 12,
        RecordKind::MX => 15,
        RecordKind::TXT => 16,
        RecordKind::AAAA => 28,
        RecordKind::SRV => 33,
        RecordKind::CERT => 37,
        RecordKind::DNAME => 39,
        RecordKind::DS => 43,
        RecordKind::SSHFP => 44,
        RecordKind::RRSIG => 46,
        RecordKind::NSEC => 47,
        RecordKind::DNSKEY => 48,
        RecordKind::NSEC3 => 50,
        RecordKind::NSEC3PARAM => 51,
        RecordKind::TLSA => 52,
        RecordKind::ZONEMD => 63,
        RecordKind::SVCB => 64,
        RecordKind::HTTPS => 65,
        RecordKind::URI => 256,
        RecordKind::ANAME => 65305,
    }
}

/// The record type with a mnemonic.
pub open spec fn kind_named(name: Seq<char>) -> Option<RecordKind> {
    if name == mnemonic(RecordKind::A) {
        Some(RecordKind::A)
    } else if name == mnemonic(RecordKind::NS) {
        Some(RecordKind::NS)
    } else if name == mnemonic(RecordKind::CNAME) {
        Some(RecordKind::CNAME)
    } else if name == mnemonic(RecordKind::SOA) {
        Some(RecordKind::SOA)
    } else if name == mnemonic(RecordKind::PTR) {
        Some(RecordKind::PTR)
    } else if name == mnemonic(RecordKind::MX) {
        Some(RecordKind::MX)
    } else if name == mnemonic(RecordKind::TXT) {
        Some(RecordKind::TXT)
    } else if name == mnemonic(RecordKind::AAAA) {
        Some(RecordKind::AAAA)
    } else if name == mnemonic(RecordKind::SRV) {
        Some(RecordKind::SRV)
    } else if name == mnemonic(RecordKind::CERT) {
        Some(RecordKind::CERT)
    } else if name == mnemonic(RecordKind::DNAME) {
        Some(RecordKind::DNAME)
    } else if name == mnemonic(RecordKind::DS) {
        Some(RecordKind::DS)
    } else if name == mnemonic(RecordKind::SSHFP) {
        Some(RecordKind::SSHFP)
    } else if name == mnemonic(RecordKind::RRSIG) {
        Some(RecordKind::RRSIG)
    } else if name == mnemonic(RecordKind::NSEC) {
        Some(RecordKind::NSEC)
    } else if name == mnemonic(RecordKind::DNSKEY) {
        Some(RecordKind::DNSKEY)
    } else if name == mnemonic(RecordKind::NSEC3) {
        Some(RecordKind::NSEC3)
    } else if name == mnemonic(RecordKind::NSEC3PARAM) {
        Some(RecordKind::NSEC3PARAM)
    } else if name == mnemonic(RecordKind::TLSA) {
        Some(RecordKind::TLSA)
    } else if name == mnemonic(RecordKind::ZONEMD) {
        Some(RecordKind::ZONEMD)
    } else if name == mnemonic(RecordKind::SVCB) {
        Some(RecordKind::SVCB)
    } else if name == mnemonic(RecordKind::HTTPS) {
        Some(RecordKind::HTTPS)
    } else if name == mnemonic(RecordKind::URI) {
        Some(RecordKind::URI)
    } else if name == mnemonic(RecordKind::ANAME) {
        Some(RecordKind::ANAME)
    } else {
        None
    }
}

/// The record type with a mnemonic in any case.
pub open spec fn kind_of(name: Seq<char>) -> Option<RecordKind> {
    kind_named(uppercase(name))
}

/// The record type with a wire code.
pub open spec fn kind_with_code(code: u16) -> Option<RecordKind> {
    match code {
        1 => Some(RecordKind::A),
        2 => Some(RecordKind::NS),
        5 => Some(RecordKind::CNAME),
        6 => Some(RecordKind::SOA),
        12 => Some(RecordKind::PTR),
        15 => Some(RecordKind::MX),
        16 => Some(RecordKind::TXT),
        28 => Some(RecordKind::AAAA),
        33 => Some(RecordKind::SRV),
        37 => Some(RecordKind::CERT),
        39 => Some(RecordKind::DNAME),
        43 => Some(RecordKind::DS),
        44 => Some(RecordKind::SSHFP),
        46 => Some(RecordKind::RRSIG),
        47 => Some(RecordKind::NSEC),
        48 => Some(RecordKind::DNSKEY),
        50 => Some(RecordKind::NSEC3),
        51 => Some(RecordKind::NSEC3PARAM),
        52 => Some(RecordKind::TLSA),
        63 => Some(RecordKind::ZONEMD),
        64 => Some(RecordKind::SVCB),
        65 => Some(RecordKind::HTTPS),
        256 => Some(RecordKind::URI),
        65305 => Some(RecordKind::ANAME),
        _ => None,
    }
}

impl RecordKind {
    /// The code of this type on the wire.
    pub fn wire_type(&self) -> (r: u16)
        ensures
            r == type_code(*self),
    {
        match self {
            RecordKind::A => 1,
            RecordKind::NS => 2,
            RecordKind::CNAME => 5,
            RecordKind::SOA => 6,
            RecordKind::PTR => 12,
            RecordKind::MX => 15,
            RecordKind::TXT => 16,
            RecordKind::AAAA => 28,
            RecordKind::SRV => 33,
            RecordKind::CERT => 37,
            RecordKind::DNAME => 39,
            RecordKind::DS => 43,
            RecordKind::SSHFP => 44,
            RecordKind::RRSIG => 46,
            RecordKind::NSEC => 47,
            RecordKind::DNSKEY => 48,
            RecordKind::NSEC3 => 50,
            RecordKind::NSEC3PARAM => 51,
            RecordKind::TLSA => 52,
            RecordKind::ZONEMD => 63,
            RecordKind::SVCB => 64,
            RecordKind::HTTPS => 65,
            RecordKind::URI => 256,
            RecordKind::ANAME => 65305,
        }
    }

    /// The mnemonic of this type.
    pub fn as_str(&self) -> (r: &'static str)
        ensures
            r@ == mnemonic(*self),
    {
        match self {
            RecordKind::A => {
                proof {
                    reveal_strlit("A");
                    assert("A"@ =~= mnemonic(*self));
                }
                "A"
            },
            RecordKind::NS => {
                proof {
                    reveal_strlit("NS");
                    assert("NS"@ =~= mnemonic(*self));
                }
                "NS"
            },
            RecordKind::CNAME => {
                proof {
                    reveal_strlit("CNAME");
                    assert("CNAME"@ =~= mnemonic(*self));
                }
                "CNAME"
            },
            RecordKind::SOA => {
                proof {
                    reveal_strlit("SOA");
                    assert("SOA"@ =~= mnemonic(*self));
                }
                "SOA"
            },
            RecordKind::PTR => {
                proof {
                    reveal_strlit("PTR");
                    assert("PTR"@ =~= mnemonic(*self));
                }
                "PTR"
            },
            RecordKind::MX => {
                proof {
                    reveal_strlit("MX");
                    assert("MX"@ =~= mnemonic(*self));
                }
                "MX"
            },
            RecordKind::TXT => {
                proof {
                    reveal_strlit("TXT");
                    assert("TXT"@ =~= mnemonic(*self));
                }
                "TXT"
            },
            RecordKind::AAAA => {
                proof {
                    reveal_strlit("AAAA");
                    assert("AAAA"@ =~= mnemonic(*self));
                }
                "AAAA"
            },
            RecordKind::SRV => {
                proof {
                    reveal_strlit("SRV");
                    assert("SRV"@ =~= mnemonic(*self));
                }
                "SRV"
            },
            RecordKind::CERT => {
                proof {
                    reveal_strlit("CERT");
                    assert("CERT"@ =~= mnemonic(*self));
                }
                "CERT"
            },
            RecordKind::DNAME => {
                proof {
                    reveal_strlit("DNAME");
                    assert("DNAME"@ =~= mnemonic(*self));
                }
                "DNAME"
            },
            RecordKind::DS => {
                proof {
                    reveal_strlit("DS");
                    assert("DS"@ =~= mnemonic(*self));
                }
                "DS"
            },
            RecordKind::SSHFP => {
                proof {
                    reveal_strlit("SSHFP");
                    assert("SSHFP"@ =~= mnemonic(*self));
                }
                "SSHFP"
            },
            RecordKind::RRSIG => {
                proof {
                    reveal_strlit("RRSIG");
                    assert("RRSIG"@ =~= mnemonic(*self));
                }
                "RRSIG"
            },
            RecordKind::NSEC => {
                proof {
                    reveal_strlit("NSEC");
                    assert("NSEC"@ =~= mnemonic(*self));
                }
                "NSEC"
            },
            RecordKind::DNSKEY => {
                proof {
                    reveal_strlit("DNSKEY");
                    assert("DNSKEY"@ =~= mnemonic(*self));
                }
                "DNSKEY"
            },
            RecordKind::NSEC3 => {
                proof {
                    reveal_strlit("NSEC3");
                    assert("NSEC3"@ =~= mnemonic(*self));
                }
                "NSEC3"
            },
            RecordKind::NSEC3PARAM => {
                proof {
                    reveal_strlit("NSEC3PARAM");
                    assert("NSEC3PARAM"@ =~= mnemonic(*self));
                }
                "NSEC3PARAM"
            },
            RecordKind::TLSA => {
                proof {
                    reveal_strlit("TLSA");
                    assert("TLSA"@ =~= mnemonic(*self));
                }
                "TLSA"
            },
            RecordKind::ZONEMD => {
                proof {
                    reveal_strlit("ZONEMD");
                    assert("ZONEMD"@ =~= mnemonic(*self));
                }
                "ZONEMD"
            },
            RecordKind::SVCB => {
                proof {
                    reveal_strlit("SVCB");
                    assert("SVCB"@ =~= mnemonic(*self));
                }
                "SVCB"
            },
            RecordKind::HTTPS => {
                proof {
                    reveal_strlit("HTTPS");
                    assert("HTTPS"@ =~= mnemonic(*self));
                }
                "HTTPS"
            },
            RecordKind::URI => {
                proof {
                    reveal_strlit("URI");
                    assert("URI"@ =~= mnemonic(*self));
                }
                "URI"
            },
            RecordKind::ANAME => {
                proof {
                    reveal_strlit("ANAME");
                    assert("ANAME"@ =~= mnemonic(*self));
                }
                "ANAME"
            },
        }
    }

    /// The type that a mnemonic names.
    pub fn parse(s: &str) -> (r: Option<RecordKind>)
        ensures
            r == kind_of(s@),
    {
        let upper = to_uppercase(s);
        let name = upper.as_str();
        if eq_text(name, RecordKind::A.as_str()) {
            Some(RecordKind::A)
        } else if eq_text(name, RecordKind::NS.as_str()) {
            Some(RecordKind::NS)
        } else if eq_text(name, RecordKind::CNAME.as_str()) {
            Some(RecordKind::CNAME)
        } else if eq_text(name, RecordKind::SOA.as_str()) {
            Some(RecordKind::SOA)
        } else if eq_text(name, RecordKind::PTR.as_str()) {
            Some(RecordKind::PTR)
        } else if eq_text(name, RecordKind::MX.as_str()) {
            Some(RecordKind::MX)
        } else if eq_text(name, RecordKind::TXT.as_str()) {
            Some(RecordKind::TXT)
        } else if eq_text(name, RecordKind::AAAA.as_str()) {
            Some(RecordKind::AAAA)
        } else if eq_text(name, RecordKind::SRV.as_str()) {
            Some(RecordKind::SRV)
        } else if eq_text(name, RecordKind::CERT.as_str()) {
            Some(RecordKind::CERT)
        } else if eq_text(name, RecordKind::DNAME.as_str()) {
            Some(RecordKind::DNAME)
        } else if eq_text(name, RecordKind::DS.as_str()) {
            Some(RecordKind::DS)
        } else if eq_text(name, RecordKind::SSHFP.as_str()) {
            Some(RecordKind::SSHFP)
        } else if eq_text(name, RecordKind::RRSIG.as_str()) {
            Some(RecordKind::RRSIG)
        } else if eq_text(name, RecordKind::NSEC.as_str()) {
            Some(RecordKind::NSEC)
        } else if eq_text(name, RecordKind::DNSKEY.as_str()) {
            Some(RecordKind::DNSKEY)
        } else if eq_text(name, RecordKind::NSEC3.as_str()) {
            Some(RecordKind::NSEC3)
        } else if eq_text(name, RecordKind::NSEC3PARAM.as_str()) {
            Some(RecordKind::NSEC3PARAM)
        } else if eq_text(name, RecordKind::TLSA.as_str()) {
            Some(RecordKind::TLSA)
        } else if eq_text(name, RecordKind::ZONEMD.as_str()) {
            Some(RecordKind::ZONEMD)
        } else if eq_text(name, RecordKind::SVCB.as_str()) {
            Some(RecordKind::SVCB)
        } else if eq_text(name, RecordKind::HTTPS.as_str()) {
            Some(RecordKind::HTTPS)
        } else if eq_text(name, RecordKind::URI.as_str()) {
            Some(RecordKind::URI)
        } else if eq_text(name, RecordKind::ANAME.as_str()) {
            Some(RecordKind::ANAME)
        } else {
            None
        }
    }

    /// The type with a wire code.
    pub fn from_wire_type(code: u16) -> (r: Option<RecordKind>)
        ensures
            r == kind_with_code(code),
    {
        match code {
            1 => Some(RecordKind::A),
            2 => Some(RecordKind::NS),
            5 => Some(RecordKind::CNAME),
            6 => Some(RecordKind::SOA),
            12 => Some(RecordKind::PTR),
            15 => Some(RecordKind::MX),
            16 => Some(RecordKind::TXT),
            28 => Some(RecordKind::AAAA),
            33 => Some(RecordKind::SRV),
            37 => Some(RecordKind::CERT),
            39 => Some(RecordKind::DNAME),
            43 => Some(RecordKind::DS),
            44 => Some(RecordKind::SSHFP),
            46 => Some(RecordKind::RRSIG),
            47 => Some(RecordKind::NSEC),
            48 => Some(RecordKind::DNSKEY),
            50 => Some(RecordKind::NSEC3),
            51 => Some(RecordKind::NSEC3PARAM),
            52 => Some(RecordKind::TLSA),
            63 => Some(RecordKind::ZONEMD),
            64 => Some(RecordKind::SVCB),
            65 => Some(RecordKind::HTTPS),
            256 => Some(RecordKind::URI),
            65305 => Some(RecordKind::ANAME),
            _ => None,
        }
    }
}

/// Enough of a mnemonic to tell it from the others.
spec fn signature(s: Seq<char>) -> (nat, char, char, char) {
    (s.len(), s[0], s[1], s.last())
}

/// A mnemonic is uppercase ASCII without white space.
pub proof fn lemma_mnemonic_chars(kind: RecordKind)
    ensures
        mnemonic(kind).len() > 0,
        forall|i: int|
            0 <= i < mnemonic(kind).len() ==> ('A' <= #[trigger] mnemonic(kind)[i] <= 'Z'
                || mnemonic(kind)[i] == '3'),
        uppercase(mnemonic(kind)) == mnemonic(kind),
{
    let m = mnemonic(kind);
    assert(is_ascii_chars(m));
    assert(upper_chars(m) =~= m);
}

/// The mnemonic of a type names that type.
pub proof fn law_mnemonic_round_trip(kind: RecordKind)
    ensures
        kind_of(mnemonic(kind)) == Some(kind),
{
    lemma_mnemonic_chars(kind);
    assert(signature(mnemonic(RecordKind::A)).0 == 1
        && signature(mnemonic(RecordKind::A)).1 == 'A'
        && signature(mnemonic(RecordKind::A)).3 == 'A');
    assert(signature(mnemonic(RecordKind::NS)).0 == 2
        && signature(mnemonic(RecordKind::NS)).1 == 'N'
        && signature(mnemonic(RecordKind::NS)).2 == 'S'
        && signature(mnemonic(RecordKind::NS)).3 == 'S');
    assert(signature(mnemonic(RecordKind::CNAME)).0 == 5
        && signature(mnemonic(RecordKind::CNAME)).1 == 'C'
        && signature(mnemonic(RecordKind::CNAME)).2 == 'N'
        && signature(mnemonic(RecordKind::CNAME)).3 == 'E');
    assert(signature(mnemonic(RecordKind::SOA)).0 == 3
        && signature(mnemonic(RecordKind::SOA)).1 == 'S'
        && signature(mnemonic(RecordKind::SOA)).2 == 'O'
        && signature(mnemonic(RecordKind::SOA)).3 == 'A');
    assert(signature(mnemonic(RecordKind::PTR)).0 == 3
        && signature(mnemonic(RecordKind::PTR)).1 == 'P'
        && signature(mnemonic(RecordKind::PTR)).2 == 'T'
        && signature(mnemonic(RecordKind::PTR)).3 == 'R');
    assert(signature(mnemonic(RecordKind::MX)).0 == 2
        && signature(mnemonic(RecordKind::MX)).1 == 'M'
        && signature(mnemonic(RecordKind::MX)).2 == 'X'
        && signature(mnemonic(RecordKind::MX)).3 == 'X');
    assert(signature(mnemonic(RecordKind::TXT)).0 == 3
        && signature(mnemonic(RecordKind::TXT)).1 == 'T'
        && signature(mnemonic(RecordKind::TXT)).2 == 'X'
        && signature(mnemonic(RecordKind::TXT)).3 == 'T');
    assert(signature(mnemonic(RecordKind::AAAA)).0 == 4
        && signature(mnemonic(RecordKind::AAAA)).1 == 'A'
        && signature(mnemonic(RecordKind::AAAA)).2 == 'A'
        && signature(mnemonic(RecordKind::AAAA)).3 == 'A');
    assert(signature(mnemonic(RecordKind::SRV)).0 == 3
        && signature(mnemonic(RecordKind::SRV)).1 == 'S'
        && signature(mnemonic(RecordKind::SRV)).2 == 'R'
        && signature(mnemonic(RecordKind::SRV)).3 == 'V');
    assert(signature(mnemonic(RecordKind::CERT)).0 == 4
        && signature(mnemonic(RecordKind::CERT)).1 == 'C'
        && signature(mnemonic(RecordKind::CERT)).2 == 'E'
        && signature(mnemonic(RecordKind::CERT)).3 == 'T');
    assert(signature(mnemonic(RecordKind::DNAME)).0 == 5
        && signature(mnemonic(RecordKind::DNAME)).1 == 'D'
        && signature(mnemonic(RecordKind::DNAME)).2 == 'N'
        && signature(mnemonic(RecordKind::DNAME)).3 == 'E');
    assert(signature(mnemonic(RecordKind::DS)).0 == 2
        && signature(mnemonic(RecordKind::DS)).1 == 'D'
        && signature(mnemonic(RecordKind::DS)).2 == 'S'
        && signature(mnemonic(RecordKind::DS)).3 == 'S');
    assert(signature(mnemonic(RecordKind::SSHFP)).0 == 5
        && signature(mnemonic(RecordKind::SSHFP)).1 == 'S'
        && signature(mnemonic(RecordKind::SSHFP)).2 == 'S'
        && signature(mnemonic(RecordKind::SSHFP)).3 == 'P');
    assert(signature(mnemonic(RecordKind::RRSIG)).0 == 5
        && signature(mnemonic(RecordKind::RRSIG)).1 == 'R'
        && signature(mnemonic(RecordKind::RRSIG)).2 == 'R'
        && signature(mnemonic(RecordKind::RRSIG)).3 == 'G');
    assert(signature(mnemonic(RecordKind::NSEC)).0 == 4
        && signature(mnemonic(RecordKind::NSEC)).1 == 'N'
        && signature(mnemonic(RecordKind::NSEC)).2 == 'S'
        && signature(mnemonic(RecordKind::NSEC)).3 == 'C');
    assert(signature(mnemonic(RecordKind::DNSKEY)).0 == 6
        && signature(mnemonic(RecordKind::DNSKEY)).1 == 'D'
        && signature(mnemonic(RecordKind::DNSKEY)).2 == 'N'
        && signature(mnemonic(RecordKind::DNSKEY)).3 == 'Y');
    assert(signature(mnemonic(RecordKind::NSEC3)).0 == 5
        && signature(mnemonic(RecordKind::NSEC3)).1 == 'N'
        && signature(mnemonic(RecordKind::NSEC3)).2 == 'S'
        && signature(mnemonic(RecordKind::NSEC3)).3 == '3');
    assert(signature(mnemonic(RecordKind::NSEC3PARAM)).0 == 10
        && signature(mnemonic(RecordKind::NSEC3PARAM)).1 == 'N'
        && signature(mnemonic(RecordKind::NSEC3PARAM)).2 == 'S'
        && signature(mnemonic(RecordKind::NSEC3PARAM)).3 == 'M');
    assert(signature(mnemonic(RecordKind::TLSA)).0 == 4
        && signature(mnemonic(RecordKind::TLSA)).1 == 'T'
        && signature(mnemonic(RecordKind::TLSA)).2 == 'L'
        && signature(mnemonic(RecordKind::TLSA)).3 == 'A');
    assert(signature(mnemonic(RecordKind::ZONEMD)).0 == 6
        && signature(mnemonic(RecordKind::ZONEMD)).1 == 'Z'
        && signature(mnemonic(RecordKind::ZONEMD)).2 == 'O'
        && signature(mnemonic(RecordKind::ZONEMD)).3 == 'D');
    assert(signature(mnemonic(RecordKind::SVCB)).0 == 4
        && signature(mnemonic(RecordKind::SVCB)).1 == 'S'
        && signature(mnemonic(RecordKind::SVCB)).2 == 'V'
        && signature(mnemonic(RecordKind::SVCB)).3 == 'B');
    assert(signature(mnemonic(RecordKind::HTTPS)).0 == 5
        && signature(mnemonic(RecordKind::HTTPS)).1 == 'H'
        && signature(mnemonic(RecordKind::HTTPS)).2 == 'T'
        && signature(mnemonic(RecordKind::HTTPS)).3 == 'S');
    assert(signature(mnemonic(RecordKind::URI)).0 == 3
        && signature(mnemonic(RecordKind::URI)).1 == 'U'
        && signature(mnemonic(RecordKind::URI)).2 == 'R'
        && signature(mnemonic(RecordKind::URI)).3 == 'I');
    assert(signature(mnemonic(RecordKind::ANAME)).0 == 5
        && signature(mnemonic(RecordKind::ANAME)).1 == 'A'
        && signature(mnemonic(RecordKind::ANAME)).2 == 'N'
        && signature(mnemonic(RecordKind::ANAME)).3 == 'E');
}

/// The wire code of a type identifies that type.
pub proof fn law_type_code_round_trip(kind: RecordKind)
    ensures
        kind_with_code(type_code(kind)) == Some(kind),
{
}

/// A record as it is stored.
#[derive(Debug)]
pub struct DnsRecord {
    pub id: Option<i64>,
    pub name: String,
    pub record_type: RecordKind,
    pub value: String,
    pub ttl: u32,
    pub priority: u32,
}

impl Clone for DnsRecord {
    fn clone(&self) -> (r: DnsRecord)
        ensures
            r == *self,
    {
        DnsRecord {
            id: self.id,
            name: self.name.clone(),
            record_type: self.record_type,
            value: self.value.clone(),
            ttl: self.ttl,
            priority: self.priority,
        }
    }
}

} // verus!
