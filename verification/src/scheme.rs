//! The network schemes an endpoint can have, with the name and the
//! default port of each.

use crate::text::text_eq;
use vstd::prelude::*;

verus! {

/// A supported network scheme.
#[derive(Debug, Clone, Copy, PartialEq, Eq, Hash)]
pub enum Scheme {
    Http,
    Https,
    Tcp,
    Udp,
    Mqtt,
    Mqtts,
    Ws,
    Wss,
    Coap,
    Coaps,
    Redis,
    Amqp,
    Ftp,
}

impl Scheme {
    /// The name of the scheme as it stands before `://`.
    pub open spec fn text(self) -> Seq<char> {
        match self {
            Scheme::Http => "http"@,
            Scheme::Https => "https"@,
            Scheme::Tcp => "tcp"@,
            Scheme::Udp => "udp"@,
            Scheme::Mqtt => "mqtt"@,
            Scheme::Mqtts => "mqtts"@,
            Scheme::Ws => "ws"@,
            Scheme::Wss => "wss"@,
            Scheme::Coap => "coap"@,
            Scheme::Coaps => "coaps"@,
            Scheme::Redis => "redis"@,
            Scheme::Amqp => "amqp"@,
            Scheme::Ftp => "ftp"@,
        }
    }

    /// The port assumed when the connection string gives none. The raw
    /// transports `tcp` and `udp` have no default.
    pub open spec fn default_port_value(self) -> Option<u16> {
        match self {
            Scheme::Http | Scheme::Ws | Scheme::Mqtt | Scheme::Coap | Scheme::Redis | Scheme::Amqp
            | Scheme::Ftp => Some(80u16),
            Scheme::Https | Scheme::Wss | Scheme::Mqtts | Scheme::Coaps => Some(443u16),
            Scheme::Tcp | Scheme::Udp => None,
        }
    }

    /// The scheme is one of the web, in which the URL grammar takes a
    /// backslash for a slash: `http`, `https`, `ws`, `wss` or `ftp`.
    pub open spec fn is_web(self) -> bool {
        match self {
            Scheme::Http | Scheme::Https | Scheme::Ws | Scheme::Wss | Scheme::Ftp => true,
            _ => false,
        }
    }

    /// The scheme named `name`, matched exactly and with regard to case.
    pub open spec fn of_name(name: Seq<char>) -> Option<Scheme> {
        if exists|scheme: Scheme| scheme.text() == name {
            Some(choose|scheme: Scheme| scheme.text() == name)
        } else {
            None
        }
    }

    /// The place of the scheme in the order of declaration.
    pub open spec fn ordinal(self) -> int {
        match self {
            Scheme::Http => 0,
            Scheme::Https => 1,
            Scheme::Tcp => 2,
            Scheme::Udp => 3,
            Scheme::Mqtt => 4,
            Scheme::Mqtts => 5,
            Scheme::Ws => 6,
            Scheme::Wss => 7,
            Scheme::Coap => 8,
            Scheme::Coaps => 9,
            Scheme::Redis => 10,
            Scheme::Amqp => 11,
            Scheme::Ftp => 12,
        }
    }

    /// Every scheme, in the order of declaration.
    pub fn all() -> (table: [Scheme; 13])
        ensures
            forall|scheme: Scheme|
                0 <= #[trigger] scheme.ordinal() < 13 && table@[scheme.ordinal()] == scheme,
    {
        [
            Scheme::Http,
            Scheme::Https,
            Scheme::Tcp,
            Scheme::Udp,
            Scheme::Mqtt,
            Scheme::Mqtts,
            Scheme::Ws,
            Scheme::Wss,
            Scheme::Coap,
            Scheme::Coaps,
            Scheme::Redis,
            Scheme::Amqp,
            Scheme::Ftp,
        ]
    }

    /// The name of the scheme.
    pub fn name(&self) -> (name: &'static str)
        ensures
            name@ == self.text(),
    {
        match self {
            Scheme::Http => "http",
            Scheme::Https => "https",
            Scheme::Tcp => "tcp",
            Scheme::Udp => "udp",
            Scheme::Mqtt => "mqtt",
            Scheme::Mqtts => "mqtts",
            Scheme::Ws => "ws",
            Scheme::Wss => "wss",
            Scheme::Coap => "coap",
            Scheme::Coaps => "coaps",
            Scheme::Redis => "redis",
            Scheme::Amqp => "amqp",
            Scheme::Ftp => "ftp",
        }
    }

    /// The default port of the scheme, if it has one.
    pub fn default_port(&self) -> (port: Option<u16>)
        ensures
            port == self.default_port_value(),
    {
        match self {
            Scheme::Http | Scheme::Ws | Scheme::Mqtt | Scheme::Coap | Scheme::Redis | Scheme::Amqp
            | Scheme::Ftp => Some(80),
            Scheme::Https | Scheme::Wss | Scheme::Mqtts | Scheme::Coaps => Some(443),
            Scheme::Tcp | Scheme::Udp => None,
        }
    }

    /// Whether the scheme is one of the web.
    pub fn web(&self) -> (web: bool)
        ensures
            web == self.is_web(),
    {
        match self {
            Scheme::Http | Scheme::Https | Scheme::Ws | Scheme::Wss | Scheme::Ftp => true,
            _ => false,
        }
    }

    /// Looks a scheme up by its name.
    pub fn from_name(name: &str) -> (scheme: Option<Scheme>)
        ensures
            scheme == Scheme::of_name(name@),
    {
        let chars = crate::text::chars_of(name);
        let table = Scheme::all();
        let mut i: usize = 0;
        while i < 13
            invariant
                i <= 13,
                chars@ == name@,
                forall|scheme: Scheme|
                    0 <= #[trigger] scheme.ordinal() < 13 && table@[scheme.ordinal()] == scheme,
                forall|j: int| 0 <= j < i ==> (#[trigger] table@[j]).text() != name@,
            decreases 13 - i,
        {
            let candidate = table[i];
            if text_eq(&chars, candidate.name()) {
                proof {
                    lemma_names_differ(candidate, choose|scheme: Scheme| scheme.text() == name@);
                }
                return Some(candidate);
            }
            i += 1;
        }
        proof {
            assert forall|scheme: Scheme| scheme.text() != name@ by {
                assert(table@[scheme.ordinal()].text() != name@);
            }
        }
        None
    }
}

/// The characters of each scheme's name.
pub proof fn lemma_name_chars(scheme: Scheme)
    ensures
        scheme.text() == match scheme {
            Scheme::Http => seq!['h', 't', 't', 'p'],
            Scheme::Https => seq!['h', 't', 't', 'p', 's'],
            Scheme::Tcp => seq!['t', 'c', 'p'],
            Scheme::Udp => seq!['u', 'd', 'p'],
            Scheme::Mqtt => seq!['m', 'q', 't', 't'],
            Scheme::Mqtts => seq!['m', 'q', 't', 't', 's'],
            Scheme::Ws => seq!['w', 's'],
            Scheme::Wss => seq!['w', 's', 's'],
            Scheme::Coap => seq!['c', 'o', 'a', 'p'],
            Scheme::Coaps => seq!['c', 'o', 'a', 'p', 's'],
            Scheme::Redis => seq!['r', 'e', 'd', 'i', 's'],
            Scheme::Amqp => seq!['a', 'm', 'q', 'p'],
            Scheme::Ftp => seq!['f', 't', 'p'],
        },
{
    reveal_strlit("http");
    reveal_strlit("https");
    reveal_strlit("tcp");
    reveal_strlit("udp");
    reveal_strlit("mqtt");
    reveal_strlit("mqtts");
    reveal_strlit("ws");
    reveal_strlit("wss");
    reveal_strlit("coap");
    reveal_strlit("coaps");
    reveal_strlit("redis");
    reveal_strlit("amqp");
    reveal_strlit("ftp");
    match scheme {
        Scheme::Http => assert("http"@ =~= seq!['h', 't', 't', 'p']),
        Scheme::Https => assert("https"@ =~= seq!['h', 't', 't', 'p', 's']),
        Scheme::Tcp => assert("tcp"@ =~= seq!['t', 'c', 'p']),
        Scheme::Udp => assert("udp"@ =~= seq!['u', 'd', 'p']),
        Scheme::Mqtt => assert("mqtt"@ =~= seq!['m', 'q', 't', 't']),
        Scheme::Mqtts => assert("mqtts"@ =~= seq!['m', 'q', 't', 't', 's']),
        Scheme::Ws => assert("ws"@ =~= seq!['w', 's']),
        Scheme::Wss => assert("wss"@ =~= seq!['w', 's', 's']),
        Scheme::Coap => assert("coap"@ =~= seq!['c', 'o', 'a', 'p']),
        Scheme::Coaps => assert("coaps"@ =~= seq!['c', 'o', 'a', 'p', 's']),
        Scheme::Redis => assert("redis"@ =~= seq!['r', 'e', 'd', 'i', 's']),
        Scheme::Amqp => assert("amqp"@ =~= seq!['a', 'm', 'q', 'p']),
        Scheme::Ftp => assert("ftp"@ =~= seq!['f', 't', 'p']),
    }
}

/// The name of a scheme has at least two characters, all of them
/// lower-case letters.
pub proof fn lemma_name_letters(scheme: Scheme)
    ensures
        scheme.text().len() >= 2,
        forall|i: int|
            0 <= i < scheme.text().len() ==> 'a' <= #[trigger] scheme.text()[i] && scheme.text()[i]
                <= 'z',
{
    lemma_name_chars(scheme);
}

/// The length and the first character of each scheme's name.
pub proof fn lemma_name_shape(scheme: Scheme)
    ensures
        scheme.text().len() == match scheme {
            Scheme::Ws => 2nat,
            Scheme::Tcp | Scheme::Udp | Scheme::Wss | Scheme::Ftp => 3nat,
            Scheme::Http | Scheme::Mqtt | Scheme::Coap | Scheme::Amqp => 4nat,
            Scheme::Https | Scheme::Mqtts | Scheme::Coaps | Scheme::Redis => 5nat,
        },
        scheme.text()[0] == match scheme {
            Scheme::Http | Scheme::Https => 'h',
            Scheme::Tcp => 't',
            Scheme::Udp => 'u',
            Scheme::Mqtt | Scheme::Mqtts => 'm',
            Scheme::Ws | Scheme::Wss => 'w',
            Scheme::Coap | Scheme::Coaps => 'c',
            Scheme::Redis => 'r',
            Scheme::Amqp => 'a',
            Scheme::Ftp => 'f',
        },
{
    lemma_name_chars(scheme);
}

/// No two schemes have the same name.
pub proof fn lemma_names_differ(a: Scheme, b: Scheme)
    requires
        a.text() == b.text(),
    ensures
        a == b,
{
    lemma_name_shape(a);
    lemma_name_shape(b);
}

/// A scheme is found again by its own name.
pub proof fn lemma_of_name_text(scheme: Scheme)
    ensures
        Scheme::of_name(scheme.text()) == Some(scheme),
{
    let found = choose|other: Scheme| other.text() == scheme.text();
    lemma_names_differ(found, scheme);
}

} // verus!
