//! The ports to relay, as they are given on the command line.

use crate::addr::Ipv4Address;
use crate::dotted::{ipv4_of, ipv4_text, law_address_read_back, octet_texts, parse_ipv4};
use crate::text::{
    decimal, find_char, is_digit, join, law_split_by_parts, lemma_decimal, lemma_position_behind,
    lemma_split_join, parse_u16, position_of, split, split_str, texts, u16_of,
};
use vstd::prelude::*;
use vstd::string::*;

verus! {

/// One relayed UDP port plus the multicast groups (if any) to join for it.
#[derive(Debug)]
pub struct RelayPortSpec {
    pub port: u16,
    pub multicast: Vec<Ipv4Address>,
}

/// Why a relay value is refused.
#[derive(Debug)]
pub enum RelayError {
    /// The port is not a number of 16 bits.
    InvalidPort(String),
    /// The port is zero.
    ZeroPort,
    /// A group is not an IPv4 address.
    InvalidMulticast(String),
}

/// A [`RelayError`] in specifications.
pub enum RelayErrorView {
    InvalidPort(Seq<char>),
    ZeroPort,
    InvalidMulticast(Seq<char>),
}

impl View for RelayPortSpec {
    type V = (u16, Seq<Ipv4Address>);

    open spec fn view(&self) -> (u16, Seq<Ipv4Address>) {
        (self.port, self.multicast@)
    }
}

impl Clone for RelayPortSpec {
    fn clone(&self) -> (r: Self)
        ensures
            r@ == self@,
    {
        let multicast = self.multicast.clone();
        assert(multicast@ =~= self.multicast@);
        RelayPortSpec { port: self.port, multicast }
    }
}

impl View for RelayError {
    type V = RelayErrorView;

    open spec fn view(&self) -> RelayErrorView {
        match self {
            RelayError::InvalidPort(text) => RelayErrorView::InvalidPort(text@),
            RelayError::ZeroPort => RelayErrorView::ZeroPort,
            RelayError::InvalidMulticast(text) => RelayErrorView::InvalidMulticast(text@),
        }
    }
}

/// The addresses that the parts stand for, or the first part that is none.
pub open spec fn groups_of(parts: Seq<Seq<char>>) -> Result<Seq<Ipv4Address>, Seq<char>>
    decreases parts.len(),
{
    if parts.len() == 0 {
        Ok(seq![])
    } else {
        match groups_of(parts.drop_last()) {
            Err(part) => Err(part),
            Ok(groups) => match ipv4_of(parts.last()) {
                Some(group) => Ok(groups.push(group)),
                None => Err(parts.last()),
            },
        }
    }
}

/// What stands behind the first colon.
pub open spec fn group_list(value: Seq<char>) -> Seq<char> {
    let colon = position_of(value, ':');
    if colon < value.len() {
        value.skip(colon as int + 1)
    } else {
        seq![]
    }
}

/// What a value of the form `PORT[:MCAST[,MCAST...]]` stands for.
pub open spec fn relay_of(value: Seq<char>) -> Result<(u16, Seq<Ipv4Address>), RelayErrorView> {
    let port_text = value.take(position_of(value, ':') as int);
    let list = group_list(value);
    match u16_of(port_text) {
        None => Err(RelayErrorView::InvalidPort(port_text)),
        Some(port) => if port == 0 {
            Err(RelayErrorView::ZeroPort)
        } else if list.len() == 0 {
            Ok((port, seq![]))
        } else {
            match groups_of(split(list, ',')) {
                Ok(groups) => Ok((port, groups)),
                Err(part) => Err(RelayErrorView::InvalidMulticast(part)),
            }
        },
    }
}

/// How a relay value is written.
pub open spec fn relay_text(port: u16, groups: Seq<Ipv4Address>) -> Seq<char> {
    if groups.len() == 0 {
        decimal(port as nat)
    } else {
        decimal(port as nat).push(':') + join(
            groups.map_values(|group: Ipv4Address| ipv4_text(group)),
            ',',
        )
    }
}

/// A string as `{:?}` writes it: in quotes, and escaped.
pub uninterp spec fn debug_quoted(text: Seq<char>) -> Seq<char>;

/// Why the value is refused, in words.
pub open spec fn message_of(error: RelayErrorView) -> Seq<char> {
    match error {
        RelayErrorView::InvalidPort(text) => "invalid relay port: "@ + debug_quoted(text),
        RelayErrorView::ZeroPort => "relay port must be between 1 and 65535"@,
        RelayErrorView::InvalidMulticast(text) => "invalid multicast address: "@ + debug_quoted(
            text,
        ),
    }
}

/// Writes a string with std's `{:?}`. The contract only says that the result
/// depends on nothing but the string.
#[verifier::external_body]
fn quote(text: &str) -> (r: String)
    ensures
        r@ == debug_quoted(text@),
{
    format!("{text:?}")
}

/// The words for a port that is no number; `quoted` is the port in quotes.
pub fn invalid_port_message(quoted: &str) -> (r: String)
    ensures
        r@ == "invalid relay port: "@ + quoted@,
{
    let mut message = "invalid relay port: ".to_owned();
    message.append(quoted);
    message
}

/// The words for a group that is no address; `quoted` is the group in quotes.
pub fn invalid_multicast_message(quoted: &str) -> (r: String)
    ensures
        r@ == "invalid multicast address: "@ + quoted@,
{
    let mut message = "invalid multicast address: ".to_owned();
    message.append(quoted);
    message
}

impl RelayError {
    /// Why the value is refused, in words.
    pub fn message(&self) -> (r: String)
        ensures
            r@ == message_of(self@),
    {
        match self {
            RelayError::InvalidPort(text) => {
                let quoted = quote(text.as_str());
                invalid_port_message(quoted.as_str())
            },
            RelayError::ZeroPort => "relay port must be between 1 and 65535".to_owned(),
            RelayError::InvalidMulticast(text) => {
                let quoted = quote(text.as_str());
                invalid_multicast_message(quoted.as_str())
            },
        }
    }
}

/// Reads a list of addresses; on failure, the first part that is none.
fn parse_groups(list: &str) -> (r: Result<Vec<Ipv4Address>, String>)
    ensures
        match r {
            Ok(groups) => groups_of(split(list@, ',')) == Ok::<Seq<Ipv4Address>, Seq<char>>(
                groups@,
            ),
            Err(part) => groups_of(split(list@, ',')) == Err::<Seq<Ipv4Address>, Seq<char>>(part@),
        },
{
    let parts = split_str(list, ',');
    let ghost all = split(list@, ',');
    let mut groups: Vec<Ipv4Address> = Vec::new();
    for i in 0..parts.len()
        invariant
            all == split(list@, ','),
            texts(parts@) == all,
            groups_of(all.take(i as int)) == Ok::<Seq<Ipv4Address>, Seq<char>>(groups@),
    {
        assert(all[i as int] == parts@[i as int]@);
        assert(all.take(i + 1).drop_last() =~= all.take(i as int));
        let part: &str = parts[i];
        match parse_ipv4(part) {
            Some(group) => {
                groups.push(group);
            },
            None => {
                proof {
                    lemma_first_failure(all, i as int);
                }
                return Err(part.to_owned());
            },
        }
    }
    assert(all.take(all.len() as int) =~= all);
    Ok(groups)
}

/// The first part that fails decides.
proof fn lemma_first_failure(parts: Seq<Seq<char>>, i: int)
    requires
        0 <= i < parts.len(),
        groups_of(parts.take(i)) is Ok,
        ipv4_of(parts[i]) is None,
    ensures
        groups_of(parts) == Err::<Seq<Ipv4Address>, Seq<char>>(parts[i]),
    decreases parts.len(),
{
    if i == parts.len() - 1 {
        assert(parts.drop_last() =~= parts.take(i));
    } else {
        assert(parts.drop_last().take(i) =~= parts.take(i));
        lemma_first_failure(parts.drop_last(), i);
    }
}

/// Reads a value of the form `PORT[:MCAST[,MCAST...]]`.
pub fn read_relay(value: &str) -> (r: Result<RelayPortSpec, RelayError>)
    ensures
        match r {
            Ok(relay) => relay_of(value@) == Ok::<(u16, Seq<Ipv4Address>), RelayErrorView>(relay@),
            Err(error) => relay_of(value@) == Err::<(u16, Seq<Ipv4Address>), RelayErrorView>(
                error@,
            ),
        },
{
    let colon: usize = find_char(value, ':');
    let len: usize = value.unicode_len();
    let port_text = value.substring_char(0, colon);
    assert(port_text@ =~= value@.take(colon as int));
    let port: u16 = match parse_u16(port_text) {
        Some(port) => port,
        None => {
            return Err(RelayError::InvalidPort(port_text.to_owned()));
        },
    };
    if port == 0 {
        return Err(RelayError::ZeroPort);
    }
    if colon == len || colon + 1 == len {
        let multicast: Vec<Ipv4Address> = Vec::new();
        return Ok(RelayPortSpec { port, multicast });
    }
    let list = value.substring_char(colon + 1, len);
    assert(list@ =~= group_list(value@));
    match parse_groups(list) {
        Ok(multicast) => Ok(RelayPortSpec { port, multicast }),
        Err(part) => Err(RelayError::InvalidMulticast(part)),
    }
}

/// Parses a `--relay` value of the form `PORT[:MCAST[,MCAST...]]`.
/// Examples: `1900:239.255.255.250`, `1900:224.0.0.251,239.255.255.250`, `9`.
pub fn parse_relay(value: &str) -> (r: Result<RelayPortSpec, String>)
    ensures
        match r {
            Ok(relay) => relay_of(value@) == Ok::<(u16, Seq<Ipv4Address>), RelayErrorView>(relay@),
            Err(message) => relay_of(value@) is Err && message@ == message_of(
                relay_of(value@)->Err_0,
            ),
        },
{
    match read_relay(value) {
        Ok(relay) => Ok(relay),
        Err(error) => Err(error.message()),
    }
}

/// The text of an address holds digits and dots only.
proof fn lemma_ipv4_text_chars(ip: Ipv4Address)
    ensures
        forall|c: char| #[trigger]
            ipv4_text(ip).contains(c) ==> is_digit(c) || c == '.',
{
    let parts = octet_texts(ip);
    lemma_decimal(ip.a as nat);
    lemma_decimal(ip.b as nat);
    lemma_decimal(ip.c as nat);
    lemma_decimal(ip.d as nat);
    reveal_with_fuel(join, 4);
    let d0 = parts.drop_last();
    let d1 = d0.drop_last();
    let d2 = d1.drop_last();
    assert(ipv4_text(ip) =~= ((d2[0].push('.') + d1.last()).push('.') + d0.last()).push('.')
        + parts.last());
    assert forall|i: int| 0 <= i < ipv4_text(ip).len() implies is_digit(ipv4_text(ip)[i])
        || #[trigger] ipv4_text(ip)[i] == '.' by {}
}

/// The groups are read back from their texts.
proof fn lemma_groups_read_back(groups: Seq<Ipv4Address>)
    ensures
        groups_of(groups.map_values(|group: Ipv4Address| ipv4_text(group))) == Ok::<
            Seq<Ipv4Address>,
            Seq<char>,
        >(groups),
    decreases groups.len(),
{
    let parts = groups.map_values(|group: Ipv4Address| ipv4_text(group));
    if groups.len() == 0 {
        assert(groups =~= seq![]);
    } else {
        let front = groups.drop_last();
        assert(parts.drop_last() =~= front.map_values(|group: Ipv4Address| ipv4_text(group)));
        lemma_groups_read_back(front);
        law_address_read_back(groups.last());
        assert(front.push(groups.last()) =~= groups);
    }
}

/// Every port but zero, with any groups, is read back from its text.
pub proof fn law_relay_read_back(port: u16, groups: Seq<Ipv4Address>)
    requires
        port != 0,
    ensures
        relay_of(relay_text(port, groups)) == Ok::<(u16, Seq<Ipv4Address>), RelayErrorView>(
            (port, groups),
        ),
{
    let digits = decimal(port as nat);
    lemma_decimal(port as nat);
    assert(!digits.contains(':')) by {
        if digits.contains(':') {
            let i = choose|i: int| 0 <= i < digits.len() && digits[i] == ':';
            assert(is_digit(digits[i]));
        }
    }
    assert(is_digit(digits[0]));
    let texts = groups.map_values(|group: Ipv4Address| ipv4_text(group));
    let list = join(texts, ',');
    lemma_position_behind(digits, ':', list);
    let value = relay_text(port, groups);
    assert(value.take(digits.len() as int) =~= digits);
    assert(u16_of(digits) == Some(port));
    if groups.len() > 0 {
        assert(value.skip(digits.len() as int + 1) =~= list);
        assert forall|i: int| 0 <= i < texts.len() implies !(#[trigger] texts[i]).contains(',') by {
            lemma_ipv4_text_chars(groups[i]);
        }
        lemma_split_join(texts, ',');
        lemma_groups_read_back(groups);
        assert(list.len() > 0) by {
            if list.len() == 0 {
                assert(split(list, ',') =~= seq![seq![]]);
                law_address_read_back(groups[0]);
                assert(texts[0].len() == 0);
                assert(split(texts[0], '.').len() == 1);
            }
        }
    } else {
        assert(groups =~= seq![]);
    }
}

/// A port that is accepted is not zero.
pub proof fn law_relay_port_not_zero(value: Seq<char>)
    ensures
        relay_of(value) matches Ok(relay) ==> 1 <= relay.0 <= 65535,
{
}

/// What stands before the first colon is the port. It has to be a number of 16
/// bits other than zero, whatever follows. Where nothing follows, with or without
/// the colon, there are no groups.
pub proof fn law_relay_by_port(port_text: Seq<char>, list: Seq<char>)
    requires
        !port_text.contains(':'),
    ensures
        relay_of(port_text) == (match u16_of(port_text) {
            None => Err(RelayErrorView::InvalidPort(port_text)),
            Some(port) => if port == 0 {
                Err(RelayErrorView::ZeroPort)
            } else {
                Ok::<(u16, Seq<Ipv4Address>), RelayErrorView>((port, seq![]))
            },
        }),
        relay_of(port_text.push(':')) == relay_of(port_text),
        relay_of(port_text) is Err ==> relay_of(port_text.push(':') + list) == relay_of(port_text),
{
    lemma_position_behind(port_text, ':', list);
    lemma_position_behind(port_text, ':', seq![]);
    let len = port_text.len() as int;
    assert(port_text.take(len) =~= port_text);
    assert(port_text.push(':') + Seq::<char>::empty() =~= port_text.push(':'));
    assert(port_text.push(':').take(len) =~= port_text);
    assert(port_text.push(':').skip(len + 1) =~= seq![]);
    assert((port_text.push(':') + list).take(len) =~= port_text);
}

/// Behind a good port and a colon, a text without a comma is one group, and a
/// comma with such a text behind it adds a group at the end. Each has to be an
/// address, and the first that is none is the one complained about.
pub proof fn law_relay_by_groups(port_text: Seq<char>, list: Seq<char>, group: Seq<char>)
    requires
        !port_text.contains(':'),
        !group.contains(','),
        u16_of(port_text) is Some,
        u16_of(port_text) != Some(0u16),
    ensures
        group.len() > 0 ==> relay_of(port_text.push(':') + group) == (match ipv4_of(group) {
            Some(ip) => Ok((u16_of(port_text)->0, seq![ip])),
            None => Err::<(u16, Seq<Ipv4Address>), RelayErrorView>(
                RelayErrorView::InvalidMulticast(group),
            ),
        }),
        list.len() > 0 ==> relay_of(port_text.push(':') + (list.push(',') + group)) == (match (
            relay_of(port_text.push(':') + list),
            ipv4_of(group),
        ) {
            (Ok((port, groups)), Some(ip)) => Ok((port, groups.push(ip))),
            (Ok(_), None) => Err(RelayErrorView::InvalidMulticast(group)),
            (Err(error), _) => Err::<(u16, Seq<Ipv4Address>), RelayErrorView>(error),
        }),
        relay_of(port_text.push(':') + (seq![','] + group)) == Err::<
            (u16, Seq<Ipv4Address>),
            RelayErrorView,
        >(RelayErrorView::InvalidMulticast(seq![])),
{
    let len = port_text.len() as int;
    let longer = list.push(',') + group;
    let bare = seq![','] + group;
    lemma_position_behind(port_text, ':', group);
    lemma_position_behind(port_text, ':', list);
    lemma_position_behind(port_text, ':', longer);
    lemma_position_behind(port_text, ':', bare);
    assert((port_text.push(':') + group).take(len) =~= port_text);
    assert((port_text.push(':') + list).take(len) =~= port_text);
    assert((port_text.push(':') + longer).take(len) =~= port_text);
    assert((port_text.push(':') + bare).take(len) =~= port_text);
    assert((port_text.push(':') + group).skip(len + 1) =~= group);
    assert((port_text.push(':') + list).skip(len + 1) =~= list);
    assert((port_text.push(':') + longer).skip(len + 1) =~= longer);
    assert((port_text.push(':') + bare).skip(len + 1) =~= bare);
    law_split_by_parts(list, group, ',');
    law_split_by_parts(seq![], group, ',');
    let nothing = Seq::<char>::empty();
    assert(nothing.push(',') + group =~= bare);
    assert(split(nothing, ',') =~= seq![nothing]);
    assert(seq![group].drop_last() =~= seq![]);
    assert(split(list, ',').push(group).drop_last() =~= split(list, ','));
    reveal_with_fuel(groups_of, 3);
    let pair = split(bare, ',');
    assert(pair =~= seq![nothing, group]);
    assert(pair.drop_last() =~= seq![nothing]);
    assert(seq![nothing].drop_last() =~= seq![]);
    assert(ipv4_of(nothing) is None) by {
        assert(split(nothing, '.').len() == 1);
    }
    if let Some(ip) = ipv4_of(group) {
        assert(Seq::<Ipv4Address>::empty().push(ip) =~= seq![ip]);
    }
}

/// The complaint about a value tells what is wrong, and quotes the text that is.
pub proof fn law_relay_complaints(text: Seq<char>)
    ensures
        message_of(RelayErrorView::InvalidPort(text)) == "invalid relay port: "@ + debug_quoted(
            text,
        ),
        message_of(RelayErrorView::InvalidMulticast(text)) == "invalid multicast address: "@
            + debug_quoted(text),
        message_of(RelayErrorView::ZeroPort) == "relay port must be between 1 and 65535"@,
{
}

/// A value that was read holds the port and the groups, and a complaint the text
/// that it is about.
pub proof fn law_relay_contents(relay: RelayPortSpec, text: String)
    ensures
        relay@ == (relay.port, relay.multicast@),
        RelayError::InvalidPort(text)@ == RelayErrorView::InvalidPort(text@),
        RelayError::ZeroPort@ == RelayErrorView::ZeroPort,
        RelayError::InvalidMulticast(text)@ == RelayErrorView::InvalidMulticast(text@),
{
}

} // verus!
