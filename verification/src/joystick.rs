use crate::vec_map::Key;
use vstd::prelude::*;
use vstd::string::StringSliceAdditionalSpecFns;

verus! {

/// Stable hardware identity of a physical controller: sixteen raw bytes that
/// stay the same across attachments, unlike the instance handle.
#[derive(Copy, Clone, Debug, PartialEq, Eq, Hash)]
pub struct JoystickGuid(pub [u8; 16]);

impl View for JoystickGuid {
    type V = Seq<u8>;

    open spec fn view(&self) -> Seq<u8> {
        self.0@
    }
}

impl JoystickGuid {
    /// Compares the sixteen bytes.
    pub fn same_bytes(&self, other: &JoystickGuid) -> (r: bool)
        ensures
            r == (self@ == other@),
    {
        let mut i: usize = 0;
        while i < 16
            invariant
                i <= 16,
                forall|j: int| 0 <= j < i ==> self.0@[j] == other.0@[j],
            decreases 16 - i,
        {
            if self.0[i] != other.0[i] {
                assert(self@[i as int] != other@[i as int]);
                return false;
            }
            i += 1;
        }
        assert(self@ =~= other@);
        true
    }
}

impl Key for JoystickGuid {
    type Model = Seq<u8>;

    open spec fn model(&self) -> Seq<u8> {
        self@
    }

    fn matches(&self, other: &Self) -> (r: bool) {
        self.same_bytes(other)
    }

    fn copy_key(&self) -> (r: Self) {
        *self
    }
}

/// Why a text is not the hexadecimal form of a controller identity.
#[derive(Clone, Copy, Debug, PartialEq, Eq, Structural)]
pub enum GuidParseError {
    /// The text is not 32 bytes long; holds its length in bytes.
    InvalidLength(usize),
    /// The text holds a character that is no hexadecimal digit; holds the first such.
    InvalidChar(char),
}

/// The value of a hexadecimal digit, in either case.
pub open spec fn hex_value(c: char) -> Option<u8> {
    if '0' <= c <= '9' {
        Some((c as u32 - '0' as u32) as u8)
    } else if 'a' <= c <= 'f' {
        Some((c as u32 - 'a' as u32 + 10) as u8)
    } else if 'A' <= c <= 'F' {
        Some((c as u32 - 'A' as u32 + 10) as u8)
    } else {
        None
    }
}

/// The lower-case hexadecimal digit of a value below sixteen.
pub open spec fn hex_digit(n: int) -> char {
    if n == 0 {
        '0'
    } else if n == 1 {
        '1'
    } else if n == 2 {
        '2'
    } else if n == 3 {
        '3'
    } else if n == 4 {
        '4'
    } else if n == 5 {
        '5'
    } else if n == 6 {
        '6'
    } else if n == 7 {
        '7'
    } else if n == 8 {
        '8'
    } else if n == 9 {
        '9'
    } else if n == 10 {
        'a'
    } else if n == 11 {
        'b'
    } else if n == 12 {
        'c'
    } else if n == 13 {
        'd'
    } else if n == 14 {
        'e'
    } else {
        'f'
    }
}

/// The hexadecimal form of a sequence of bytes: two lower-case digits per byte.
pub open spec fn hex_of(bytes: Seq<u8>) -> Seq<char> {
    Seq::new(
        2 * bytes.len(),
        |i: int|
            if i % 2 == 0 {
                hex_digit(bytes[i / 2] as int / 16)
            } else {
                hex_digit(bytes[i / 2] as int % 16)
            },
    )
}

/// Length of the text in bytes, in its UTF-8 encoding.
pub open spec fn byte_length(text: Seq<char>) -> nat {
    vstd::utf8::encode_utf8(text).len()
}

/// Every character of the text is a hexadecimal digit.
pub open spec fn all_hex(text: Seq<char>) -> bool {
    forall|i: int| 0 <= i < text.len() ==> hex_value(#[trigger] text[i]) is Some
}

/// Position of the first character of the text that is no hexadecimal digit.
pub open spec fn first_bad(text: Seq<char>) -> int {
    choose|i: int|
        0 <= i < text.len() && hex_value(text[i]) is None && forall|j: int|
            0 <= j < i ==> hex_value(#[trigger] text[j]) is Some
}

/// The bytes that a text of hexadecimal digits stands for, two digits per byte.
pub open spec fn bytes_of(text: Seq<char>) -> Seq<u8> {
    Seq::new(
        text.len() / 2,
        |i: int| (hex_value(text[2 * i]).unwrap() * 16 + hex_value(text[2 * i + 1]).unwrap()) as u8,
    )
}

/// The hexadecimal form of any bytes consists of hexadecimal digits and stands for those bytes.
pub proof fn lemma_hex_round_trip(bytes: Seq<u8>)
    ensures
        all_hex(hex_of(bytes)),
        hex_of(bytes).len() == 2 * bytes.len(),
        bytes_of(hex_of(bytes)) == bytes,
{
    let text = hex_of(bytes);
    assert forall|n: int| 0 <= n < 16 implies #[trigger] hex_value(hex_digit(n)) == Some(n as u8) by {}
    assert forall|i: int| 0 <= i < text.len() implies hex_value(#[trigger] text[i]) is Some by {
        let b = bytes[i / 2] as int;
        assert(0 <= b / 16 < 16 && 0 <= b % 16 < 16);
    }
    assert forall|i: int| 0 <= i < bytes.len() implies bytes_of(text)[i] == bytes[i] by {
        let b = bytes[i] as int;
        assert(0 <= b / 16 < 16 && 0 <= b % 16 < 16);
        assert((2 * i) % 2 == 0 && (2 * i) / 2 == i);
        assert((2 * i + 1) % 2 == 1 && (2 * i + 1) / 2 == i);
        assert(text[2 * i] == hex_digit(b / 16));
        assert(text[2 * i + 1] == hex_digit(b % 16));
        assert(hex_value(hex_digit(b / 16)) == Some((b / 16) as u8));
        assert(hex_value(hex_digit(b % 16)) == Some((b % 16) as u8));
    }
    assert(bytes_of(text) =~= bytes);
}

fn digit_text(n: u8) -> (r: &'static str)
    requires
        n < 16,
    ensures
        r@ == seq![hex_digit(n as int)],
{
    proof {
        reveal_strlit("0");
        reveal_strlit("1");
        reveal_strlit("2");
        reveal_strlit("3");
        reveal_strlit("4");
        reveal_strlit("5");
        reveal_strlit("6");
        reveal_strlit("7");
        reveal_strlit("8");
        reveal_strlit("9");
        reveal_strlit("a");
        reveal_strlit("b");
        reveal_strlit("c");
        reveal_strlit("d");
        reveal_strlit("e");
        reveal_strlit("f");
    }
    let r = if n == 0 {
        "0"
    } else if n == 1 {
        "1"
    } else if n == 2 {
        "2"
    } else if n == 3 {
        "3"
    } else if n == 4 {
        "4"
    } else if n == 5 {
        "5"
    } else if n == 6 {
        "6"
    } else if n == 7 {
        "7"
    } else if n == 8 {
        "8"
    } else if n == 9 {
        "9"
    } else if n == 10 {
        "a"
    } else if n == 11 {
        "b"
    } else if n == 12 {
        "c"
    } else if n == 13 {
        "d"
    } else if n == 14 {
        "e"
    } else {
        "f"
    };
    assert(r@ =~= seq![hex_digit(n as int)]);
    r
}

fn digit_value(c: char) -> (r: Option<u8>)
    ensures
        r == hex_value(c),
{
    if '0' <= c && c <= '9' {
        Some((c as u32 - '0' as u32) as u8)
    } else if 'a' <= c && c <= 'f' {
        Some((c as u32 - 'a' as u32 + 10) as u8)
    } else if 'A' <= c && c <= 'F' {
        Some((c as u32 - 'A' as u32 + 10) as u8)
    } else {
        None
    }
}

impl JoystickGuid {
    /// The identity as text: 32 lower-case hexadecimal digits.
    pub fn to_hex(&self) -> (r: String)
        ensures
            r@ == hex_of(self@),
    {
        let mut r = String::new();
        let mut i: usize = 0;
        while i < 16
            invariant
                i <= 16,
                self@.len() == 16,
                r@ == hex_of(self@).subrange(0, 2 * i as int),
            decreases 16 - i,
        {
            let b = self.0[i];
            r.append(digit_text(b / 16));
            r.append(digit_text(b % 16));
            proof {
                assert((2 * i) % 2 == 0 && (2 * i) / 2 == i);
                assert((2 * i + 1) % 2 == 1 && (2 * i + 1) / 2 == i);
                assert(r@ =~= hex_of(self@).subrange(0, 2 * (i + 1) as int));
            }
            i += 1;
        }
        assert(r@ =~= hex_of(self@));
        r
    }

    /// Reads an identity from its text form: 32 hexadecimal digits, in either case.
    pub fn from_hex(value: &str) -> (r: Result<JoystickGuid, GuidParseError>)
        ensures
            match r {
                Ok(guid) => value@.len() == 32 && all_hex(value@) && guid@ == bytes_of(value@),
                Err(GuidParseError::InvalidLength(n)) => n == byte_length(value@) && n != 32,
                Err(GuidParseError::InvalidChar(c)) => byte_length(value@) == 32 && !all_hex(
                    value@,
                ) && c == value@[first_bad(value@)],
            },
    {
        let in_bytes = value.as_bytes().len();
        assert(in_bytes == byte_length(value@)) by {
            assert(value.spec_bytes() == vstd::utf8::encode_utf8(value@));
        }
        if in_bytes != 32 {
            return Err(GuidParseError::InvalidLength(in_bytes));
        }
        let n = value.unicode_len();
        let mut i: usize = 0;
        while i < n
            invariant
                i <= n,
                n == value@.len(),
                byte_length(value@) == 32,
                forall|j: int| 0 <= j < i ==> hex_value(#[trigger] value@[j]) is Some,
            decreases n - i,
        {
            let c = value.get_char(i);
            if digit_value(c).is_none() {
                proof {
                    let k = first_bad(value@);
                    assert(0 <= i < value@.len() && hex_value(value@[i as int]) is None && forall|
                        j: int,
                    |
                        0 <= j < i ==> hex_value(#[trigger] value@[j]) is Some);
                    assert(!all_hex(value@));
                    assert(k == i) by {
                        if k < i {
                            assert(hex_value(value@[k]) is Some);
                        }
                        if i < k {
                            assert(hex_value(value@[i as int]) is Some);
                        }
                    }
                }
                return Err(GuidParseError::InvalidChar(c));
            }
            i += 1;
        }
        proof {
            assert(all_hex(value@));
            assert(vstd::utf8::is_ascii_chars(value@)) by {
                assert forall|j: int| 0 <= j < value@.len() implies '\0' <= #[trigger] value@[j]
                    <= '\u{7f}' by {
                    assert(hex_value(value@[j]) is Some);
                }
            }
            vstd::utf8::is_ascii_chars_encode_utf8(value@);
        }
        let mut bytes: [u8; 16] = [0; 16];
        let mut k: usize = 0;
        while k < 16
            invariant
                k <= 16,
                value@.len() == 32,
                all_hex(value@),
                forall|j: int| 0 <= j < k ==> bytes@[j] == bytes_of(value@)[j],
            decreases 16 - k,
        {
            let high = match digit_value(value.get_char(2 * k)) {
                Some(d) => d,
                None => 0,
            };
            let low = match digit_value(value.get_char(2 * k + 1)) {
                Some(d) => d,
                None => 0,
            };
            assert(hex_value(value@[2 * k as int]) is Some);
            assert(hex_value(value@[2 * k + 1]) is Some);
            bytes[k] = high * 16 + low;
            k += 1;
        }
        let guid = JoystickGuid(bytes);
        assert(guid@ =~= bytes_of(value@));
        Ok(guid)
    }
}

/// Writing an identity as text and reading the text back gives the identity.
pub proof fn lemma_guid_text_round_trip(guid: JoystickGuid)
    ensures
        all_hex(hex_of(guid@)),
        hex_of(guid@).len() == 32,
        bytes_of(hex_of(guid@)) == guid@,
{
    lemma_hex_round_trip(guid@);
}

/// What the launcher knows of an attached controller.
#[derive(Copy, Clone, Debug, PartialEq, Eq, Hash)]
pub struct JoystickInfo {
    /// Handle given at attach time; routes events while the controller stays attached.
    pub instance_id: i32,
    /// Identity under which bindings are stored.
    pub guid: JoystickGuid,
    /// Tells controllers with the same identity apart, in the order of their attachment.
    pub index: usize,
    /// Number of buttons that the controller reports.
    pub buttons: u32,
    /// Number of players that share the controller.
    pub split: u32,
}

impl JoystickInfo {
    pub fn new(instance_id: i32, guid: JoystickGuid, index: usize, buttons: u32, split: u32) -> (r:
        JoystickInfo)
        ensures
            r == (JoystickInfo { instance_id, guid, index, buttons, split }),
    {
        JoystickInfo { instance_id, guid, index, buttons, split }
    }

    /// Number of buttons that each sharing player owns; zero when the
    /// controller cannot be shared as configured.
    pub open spec fn spec_split_width(&self) -> int {
        if self.split == 0 {
            0
        } else {
            self.buttons as int / self.split as int
        }
    }

    /// A controller can route button presses when each of its splits owns at least one button.
    pub open spec fn routable(&self) -> bool {
        self.spec_split_width() > 0
    }

    pub fn split_width(&self) -> (r: u32)
        ensures
            r == self.spec_split_width(),
    {
        if self.split == 0 {
            0
        } else {
            self.buttons / self.split
        }
    }
}

} // verus!
