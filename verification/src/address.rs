//! Addresses of the tunnel interface.
use vstd::prelude::*;

use crate::text::{parse_u8, split_once, usize_to_string};

verus! {

use crate::text::{decimal, law_decimal_is_read_back, number};

/// An IP address.
#[derive(Debug, Clone, Copy)]
pub enum IpAddress {
    /// The four bytes of an IPv4 address.
    V4([u8; 4]),
    /// The eight groups of an IPv6 address.
    V6([u16; 8]),
}

/// An IP address and the length of the network prefix.
#[derive(Debug, Clone, Copy)]
pub struct Address {
    pub address: IpAddress,
    pub prefix: u8,
}

/// The longest network prefix of an address.
pub open spec fn max_prefix(address: IpAddress) -> u8 {
    match address {
        IpAddress::V4(_) => 32,
        IpAddress::V6(_) => 128,
    }
}

/// The message about a network prefix that is longer than the address.
pub open spec fn prefix_too_long(address: IpAddress) -> Seq<char> {
    match address {
        IpAddress::V4(_) => "invalid prefix length for IPv4: maximum is 32"@,
        IpAddress::V6(_) => "invalid prefix length for IPv6: maximum is 128"@,
    }
}

/// The address that is made of the outcome of parsing the IP address and of the text of the prefix length,
/// or the message that says what is wrong.
pub open spec fn address_result(address: Option<IpAddress>, prefix: Option<Seq<char>>) -> Result<
    Address,
    Seq<char>,
> {
    match (address, prefix) {
        (None, _) => Err("invalid IP address"@),
        (Some(address), None) => Ok(Address { address, prefix: max_prefix(address) }),
        (Some(address), Some(prefix)) => match number(prefix) {
            Some(n) => if n > u8::MAX {
                Err("invalid prefix length"@)
            } else if n > max_prefix(address) {
                Err(prefix_too_long(address))
            } else {
                Ok(Address { address, prefix: n as u8 })
            },
            None => Err("invalid prefix length"@),
        },
    }
}

/// The text of the IP address and the text of the prefix length in the text of an address:
/// what is in front of the first slash and what is after it.
pub open spec fn address_parts(input: Seq<char>) -> (Seq<char>, Option<Seq<char>>) {
    match input.index_of_first('/') {
        Some(slash) => (input.take(slash), Some(input.skip(slash + 1))),
        None => (input, None),
    }
}

/// The text of an address with the given text of the IP address.
pub open spec fn address_text(address: Seq<char>, prefix: u8) -> Seq<char> {
    address + "/"@ + decimal(prefix as nat)
}

/// A text without a slash, a slash and another text are split at that slash.
proof fn lemma_split_at_slash(before: Seq<char>, after: Seq<char>)
    requires
        !before.contains('/'),
    ensures
        address_parts(before.push('/') + after) == (before, Some(after)),
{
    let input = before.push('/') + after;
    let slash = before.len() as int;
    input.index_of_first_ensures('/');
    assert(input[slash] == '/');
    assert(input.contains('/'));
    let first = input.index_of_first('/')->0;
    if first < slash {
        assert(before[first] == '/');
    }
    assert(input.take(slash) =~= before);
    assert(input.skip(slash + 1) =~= after);
}

/// Split the text of an address into the IP address and the length of the network prefix, if it is there.
pub fn split_address(input: &str) -> (parts: (&str, Option<&str>))
    ensures
        parts.0@ == address_parts(input@).0,
        match parts.1 {
            Some(prefix) => address_parts(input@).1 == Some(prefix@),
            None => address_parts(input@).1 is None,
        },
        !parts.0@.contains('/'),
        match parts.1 {
            Some(prefix) => input@ == parts.0@.push('/') + prefix@,
            None => input@ == parts.0@,
        },
{
    match split_once(input, '/') {
        None => {
            proof {
                input@.index_of_first_ensures('/');
            }
            (input, None)
        },
        Some((address, prefix)) => {
            proof {
                lemma_split_at_slash(address@, prefix@);
            }
            (address, Some(prefix))
        },
    }
}

impl Address {
    /// Make an address from the two parts of its text:
    /// the IP address that the first part was parsed as, if it is one,
    /// and the length of the network prefix, if it is there.
    ///
    /// Without a prefix length, the prefix is the whole address.
    pub fn from_parts(address: Option<IpAddress>, prefix: Option<&str>) -> (result: Result<
        Self,
        String,
    >)
        ensures
            match address_result(
                address,
                match prefix {
                    Some(prefix) => Some(prefix@),
                    None => None,
                },
            ) {
                Ok(expected) => result == Ok::<Address, String>(expected),
                Err(message) => result matches Err(text) && text@ == message,
            },
    {
        let address = match address {
            None => return Err("invalid IP address".to_string()),
            Some(address) => address,
        };
        let max_prefix: u8 = match address {
            IpAddress::V4(_) => 32,
            IpAddress::V6(_) => 128,
        };
        let prefix: u8 = match prefix {
            None => max_prefix,
            Some(prefix) => {
                let prefix: u8 = match parse_u8(prefix) {
                    None => return Err("invalid prefix length".to_string()),
                    Some(prefix) => prefix,
                };
                if prefix > max_prefix {
                    return Err(
                        match address {
                            IpAddress::V4(_) => {
                                "invalid prefix length for IPv4: maximum is 32".to_string()
                            },
                            IpAddress::V6(_) => {
                                "invalid prefix length for IPv6: maximum is 128".to_string()
                            },
                        },
                    );
                }
                prefix
            },
        };
        Ok(Address { address, prefix })
    }

    /// The text of the address, given the text of the IP address.
    pub fn text(&self, address: &str) -> (text: String)
        ensures
            text@ == address_text(address@, self.prefix),
    {
        address.to_string().concat("/").concat(usize_to_string(self.prefix as usize).as_str())
    }
}

/// An address is never made with a prefix that is longer than the IP address.
pub proof fn law_prefix_is_within_the_address(
    address: Option<IpAddress>,
    prefix: Option<Seq<char>>,
)
    ensures
        address_result(address, prefix) matches Ok(made) ==> {
            &&& Some(made.address) == address
            &&& made.prefix <= max_prefix(made.address)
        },
{
}

/// An address that is written is read back as the same address:
/// its text is split into the text of the IP address and the prefix length,
/// and together with the IP address the prefix length makes up the address again.
pub proof fn law_address_is_read_back(address: Address, text: Seq<char>)
    requires
        !text.contains('/'),
        address.prefix <= max_prefix(address.address),
    ensures
        ({
            let parts = address_parts(address_text(text, address.prefix));
            &&& parts.0 == text
            &&& parts.1 == Some(decimal(address.prefix as nat))
            &&& address_result(Some(address.address), parts.1) == Ok::<Address, Seq<char>>(address)
        }),
{
    reveal_strlit("/");
    let prefix = decimal(address.prefix as nat);
    assert(address_text(text, address.prefix) =~= text.push('/') + prefix);
    lemma_split_at_slash(text, prefix);
    law_decimal_is_read_back(address.prefix as nat);
}

/// The length of the network prefix decides whether an IP address makes an address:
/// without one the prefix is the whole IP address, and a number of up to 32 bits for IPv4 and 128 bits for IPv6
/// is taken as it is. A larger number is refused, and so is a text that is no number.
pub proof fn law_prefix_length_is_checked(address: IpAddress, prefix: Seq<char>)
    ensures
        address is V4 ==> address_result(Some(address), None) == Ok::<_, Seq<char>>(
            Address { address, prefix: 32 },
        ),
        address is V6 ==> address_result(Some(address), None) == Ok::<_, Seq<char>>(
            Address { address, prefix: 128 },
        ),
        address_result(None, None) == Err::<Address, _>("invalid IP address"@),
        address_result(None, Some(prefix)) == Err::<Address, _>("invalid IP address"@),
        number(prefix) is None ==> address_result(Some(address), Some(prefix)) == Err::<Address, _>(
            "invalid prefix length"@,
        ),
        number(prefix) matches Some(n) ==> {
            let result = address_result(Some(address), Some(prefix));
            &&& n > 255 ==> result == Err::<Address, _>("invalid prefix length"@)
            &&& address is V4 && n <= 32 ==> result == Ok::<_, Seq<char>>(
                Address { address, prefix: n as u8 },
            )
            &&& address is V6 && n <= 128 ==> result == Ok::<_, Seq<char>>(
                Address { address, prefix: n as u8 },
            )
            &&& address is V4 && 32 < n <= 255 ==> result == Err::<Address, _>(
                "invalid prefix length for IPv4: maximum is 32"@,
            )
            &&& address is V6 && 128 < n <= 255 ==> result == Err::<Address, _>(
                "invalid prefix length for IPv6: maximum is 128"@,
            )
        },
{
}

} // verus!
