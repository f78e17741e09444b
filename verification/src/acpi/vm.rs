//! The VM description (as read from a TOML file by the application): the
//! QEMU command line it stands for, and the platform configuration that the
//! ACPI tables are built from.
use vstd::prelude::*;
use vstd::string::*;
use crate::acpi::config::{IommuKind, PciDeviceConfig, PlatformConfig, TpmKind};
use crate::acpi::text::{
    bytes_eq, contains_text, decimal_chars, decimal_value, ends_with_text, int_chars, int_to_string,
    lemma_bytes_less_transitive, push_char, push_decimal, str_contains, str_ends_with, str_eq,
    str_lt, text_less, utf8,
};
use crate::acpi::dsdt::aml::byte_len;

verus! {

// ---------------------------------------------------------------------
// Parsing numbers and PCI addresses.
// ---------------------------------------------------------------------

/// The value of an ASCII digit or letter as a digit, when it is one below
/// `radix`.
pub open spec fn digit_value(b: u8, radix: nat) -> Option<nat> {
    let d: int = if 0x30 <= b <= 0x39 {
        b - 0x30
    } else if 0x61 <= b <= 0x7a {
        b - 0x57
    } else if 0x41 <= b <= 0x5a {
        b - 0x37
    } else {
        99
    };
    if d < radix {
        Some(d as nat)
    } else {
        None
    }
}

/// The value of a string of digits in `radix`, when every byte is a digit.
pub open spec fn digits_value(s: Seq<u8>, radix: nat) -> Option<nat>
    decreases s.len(),
{
    if s.len() == 0 {
        Some(0)
    } else {
        match (digits_value(s.drop_last(), radix), digit_value(s.last(), radix)) {
            (Some(v), Some(d)) => Some(v * radix + d),
            _ => None,
        }
    }
}

/// How text parses as an 8-bit unsigned integer in `radix`: an optional
/// plus sign, then at least one digit, and a value that fits.
pub open spec fn parse_u8_radix(s: Seq<u8>, radix: nat) -> Option<u8> {
    if s.len() == 0 {
        None
    } else if (s[0] == 0x2b || s[0] == 0x2d) && s.len() == 1 {
        None
    } else {
        let digits = if s[0] == 0x2b {
            s.drop_first()
        } else {
            s
        };
        match digits_value(digits, radix) {
            Some(v) => if v <= 255 {
                Some(v as u8)
            } else {
                None
            },
            None => None,
        }
    }
}

proof fn lemma_digits_value_step(s: Seq<u8>, radix: nat, i: int)
    requires
        0 <= i < s.len(),
    ensures
        digits_value(s.take(i + 1), radix) == match (
            digits_value(s.take(i), radix),
            digit_value(s[i], radix),
        ) {
            (Some(v), Some(d)) => Some(v * radix + d),
            _ => None,
        },
{
    assert(s.take(i + 1).drop_last() =~= s.take(i));
}

proof fn lemma_digits_value_grows(s: Seq<u8>, radix: nat, i: int)
    requires
        0 <= i <= s.len(),
        radix >= 1,
        digits_value(s, radix) is Some,
    ensures
        digits_value(s.take(i), radix) is Some,
        digits_value(s.take(i), radix)->0 <= digits_value(s, radix)->0,
    decreases s.len() - i,
{
    if i < s.len() {
        lemma_digits_value_grows(s, radix, i + 1);
        lemma_digits_value_step(s, radix, i);
        let v = digits_value(s.take(i), radix);
        if v is Some {
            assert(v->0 <= v->0 * radix) by (nonlinear_arith)
                requires radix >= 1;
        }
    } else {
        assert(s.take(i) =~= s);
    }
}

/// The value of the digits `s` in `radix`, when it fits in 8 bits.
fn parse_digits_u8(s: &[u8], radix: u8) -> (r: Option<u8>)
    requires
        radix == 10 || radix == 16,
    ensures
        r == (match digits_value(s@, radix as nat) {
            Some(v) => if v <= 255 {
                Some(v as u8)
            } else {
                None
            },
            None => None,
        }),
{
    let mut value: u32 = 0;
    let mut i: usize = 0;
    assert(s@.take(0) =~= Seq::<u8>::empty());
    while i < s.len()
        invariant
            i <= s@.len(),
            radix == 10 || radix == 16,
            digits_value(s@.take(i as int), radix as nat) == Some(value as nat),
            value <= 255,
        decreases s@.len() - i,
    {
        proof {
            lemma_digits_value_step(s@, radix as nat, i as int);
        }
        let b = s[i];
        let d: u32 = if 0x30 <= b && b <= 0x39 {
            (b - 0x30) as u32
        } else if 0x61 <= b && b <= 0x7a {
            (b - 0x57) as u32
        } else if 0x41 <= b && b <= 0x5a {
            (b - 0x37) as u32
        } else {
            99
        };
        if d >= radix as u32 {
            proof {
                assert(digits_value(s@.take(i + 1), radix as nat) is None);
                if digits_value(s@, radix as nat) is Some {
                    lemma_digits_value_grows(s@, radix as nat, i + 1);
                }
            }
            return None;
        }
        let next = value * (radix as u32) + d;
        if next > 255 {
            proof {
                if digits_value(s@, radix as nat) is Some {
                    lemma_digits_value_grows(s@, radix as nat, i + 1);
                }
            }
            return None;
        }
        value = next;
        i += 1;
    }
    assert(s@.take(i as int) =~= s@);
    Some(value as u8)
}

/// Parses text as an 8-bit unsigned integer in `radix` (see
/// `parse_u8_radix`).
fn parse_u8_in_radix(s: &[u8], radix: u8) -> (r: Option<u8>)
    requires
        radix == 10 || radix == 16,
    ensures
        r == parse_u8_radix(s@, radix as nat),
{
    if s.len() == 0 {
        return None;
    }
    if (s[0] == 0x2b || s[0] == 0x2d) && s.len() == 1 {
        return None;
    }
    if s[0] == 0x2b {
        let n = s.len();
        let digits = vstd::slice::slice_subrange(s, 1, n);
        assert(digits@ =~= s@.drop_first());
        parse_digits_u8(digits, radix)
    } else {
        parse_digits_u8(s, radix)
    }
}

/// How a QEMU number parses: hexadecimal after `0x`, decimal otherwise.
pub open spec fn parse_any_radix(text: Seq<u8>) -> Option<u8> {
    if text.len() >= 2 && text[0] == 0x30 && text[1] == 0x78 {
        parse_u8_radix(text.skip(2), 16)
    } else {
        parse_u8_radix(text, 10)
    }
}

fn parse_u8_any_radix(text: &[u8]) -> (r: Option<u8>)
    ensures
        r == parse_any_radix(text@),
{
    if text.len() >= 2 && text[0] == 0x30 && text[1] == 0x78 {
        let n = text.len();
        let hex = vstd::slice::slice_subrange(text, 2, n);
        assert(hex@ =~= text@.skip(2));
        parse_u8_in_radix(hex, 16)
    } else {
        parse_u8_in_radix(text, 10)
    }
}

/// The index of the first dot in `s`, if any.
pub open spec fn first_dot(s: Seq<u8>) -> Option<nat>
    decreases s.len(),
{
    if s.len() == 0 {
        None
    } else if s[0] == 0x2e {
        Some(0)
    } else {
        match first_dot(s.drop_first()) {
            Some(i) => Some(i + 1),
            None => None,
        }
    }
}

/// The devfn of a QEMU PCI address `slot[.function]`: the slot shifted
/// left by three (within eight bits) and the low three bits of the
/// function; the function defaults to 0.
pub open spec fn parse_addr(addr: Seq<u8>) -> Option<u8> {
    let (slot_text, func_text) = match first_dot(addr) {
        Some(i) => (addr.take(i as int), addr.skip((i + 1) as int)),
        None => (addr, seq![0x30u8]),
    };
    match (parse_any_radix(slot_text), parse_any_radix(func_text)) {
        (Some(slot), Some(func)) => Some((slot << 3u8) | (func & 7u8)),
        _ => None,
    }
}

proof fn lemma_first_dot_step(s: Seq<u8>, i: int)
    requires
        0 <= i < s.len(),
        forall|k: int| 0 <= k < i ==> s[k] != 0x2e,
    ensures
        first_dot(s) == match first_dot(s.skip(i)) {
            Some(j) => Some((j + i) as nat),
            None => None,
        },
    decreases i,
{
    if i > 0 {
        lemma_first_dot_step(s.drop_first(), i - 1);
        assert(s.drop_first().skip(i - 1) =~= s.skip(i));
    } else {
        assert(s.skip(0) =~= s);
    }
}

proof fn lemma_no_dot(s: Seq<u8>)
    requires
        forall|k: int| 0 <= k < s.len() ==> s[k] != 0x2e,
    ensures
        first_dot(s) is None,
    decreases s.len(),
{
    if s.len() > 0 {
        assert forall|k: int| 0 <= k < s.drop_first().len() implies s.drop_first()[k] != 0x2e by {
            assert(s.drop_first()[k] == s[k + 1]);
        }
        lemma_no_dot(s.drop_first());
    }
}

fn parse_qemu_addr(addr: &str) -> (r: Option<u8>)
    ensures
        r == parse_addr(utf8(addr@)),
{
    let bytes = addr.as_bytes();
    let mut i: usize = 0;
    while i < bytes.len() && bytes[i] != 0x2e
        invariant
            i <= bytes@.len(),
            forall|k: int| 0 <= k < i ==> bytes@[k] != 0x2e,
        decreases bytes@.len() - i,
    {
        i += 1;
    }
    let n = bytes.len();
    let zero: [u8; 1] = [0x30];
    assert(zero@ =~= seq![0x30u8]);
    let ghost b = bytes@;
    let (slot_text, func_text): (&[u8], &[u8]) = if i < n {
        proof {
            lemma_first_dot_step(b, i as int);
            assert(b.skip(i as int)[0] == 0x2e);
            assert(first_dot(b) == Some(i as nat));
        }
        let slot_text = vstd::slice::slice_subrange(bytes, 0, i);
        let func_text = vstd::slice::slice_subrange(bytes, i + 1, n);
        assert(slot_text@ =~= b.take(i as int));
        assert(func_text@ =~= b.skip(i + 1));
        (slot_text, func_text)
    } else {
        proof {
            lemma_no_dot(b);
        }
        (bytes, &zero)
    };
    let slot = match parse_u8_any_radix(slot_text) {
        Some(v) => v,
        None => return None,
    };
    let func = match parse_u8_any_radix(func_text) {
        Some(v) => v,
        None => return None,
    };
    Some((slot << 3u8) | (func & 0x07u8))
}

proof fn lemma_devfn_bits(slot: u8, func: u8)
    by (bit_vector)
    ensures
        ((slot << 3u8) | (func & 7u8)) / 8 == slot % 32,
        ((slot << 3u8) | (func & 7u8)) % 8 == func % 8,
{
}

/// A PCI address reads as slot and function: the devfn of `slot.func` has
/// the slot (modulo 32) in its high five bits and the function (modulo 8)
/// in its low three; an address without a dot is function 0; an address
/// whose slot or function does not parse as an 8-bit number has none.
#[verifier::spinoff_prover]
pub proof fn lemma_parse_addr_decode(addr: Seq<u8>)
    ensures
        first_dot(addr) is None ==> match parse_any_radix(addr) {
            Some(slot) => parse_addr(addr) matches Some(d) && d / 8 == slot % 32 && d % 8 == 0,
            None => parse_addr(addr) is None,
        },
        first_dot(addr) matches Some(i) ==> match (
            parse_any_radix(addr.take(i as int)),
            parse_any_radix(addr.skip((i + 1) as int)),
        ) {
            (Some(slot), Some(func)) => parse_addr(addr) matches Some(d) && d / 8 == slot % 32 && d
                % 8 == func % 8,
            _ => parse_addr(addr) is None,
        },
{
    let zero = seq![0x30u8];
    assert(zero.drop_last() =~= Seq::<u8>::empty());
    assert(digit_value(0x30, 10) == Some(0nat));
    assert(digits_value(Seq::<u8>::empty(), 10) == Some(0nat));
    assert(digits_value(zero, 10) == Some(0nat));
    assert(parse_any_radix(zero) == Some(0u8));
    match first_dot(addr) {
        Some(i) => {
            match (parse_any_radix(addr.take(i as int)), parse_any_radix(addr.skip((i + 1) as int))) {
                (Some(slot), Some(func)) => {
                    lemma_devfn_bits(slot, func);
                },
                _ => {},
            }
        },
        None => {
            match parse_any_radix(addr) {
                Some(slot) => {
                    lemma_devfn_bits(slot, 0);
                },
                None => {},
            }
        },
    }
}

/// A PCI device without an address gets function 0 of slot `index + 1`
/// (modulo 32, counting the index modulo 256; the index whose low byte is
/// 255 overflows the 8-bit slot arithmetic).
pub proof fn lemma_default_devfn_decode(index: nat)
    requires
        index % 256 != 255,
    ensures
        default_devfn_of(index) / 8 == ((index % 256) + 1) % 32,
        default_devfn_of(index) % 8 == 0,
{
    let s = (((index % 256) + 1) as u8);
    lemma_devfn_bits(s, 0);
    assert((s << 3u8) | (0u8 & 7u8) == s << 3u8) by (bit_vector);
}

/// The devfn a PCI device without an address gets: slot `index + 1`,
/// function 0.
pub open spec fn default_devfn_of(index: nat) -> u8 {
    ((((index % 256) + 1) as u8) << 3u8)
}

fn default_devfn(index: usize) -> (devfn: u8)
    requires
        index % 256 != 255,
    ensures
        devfn == default_devfn_of(index as nat),
{
    (((index % 256) as u8) + 1) << 3u8
}

// ---------------------------------------------------------------------
// The VM description.
// ---------------------------------------------------------------------

/// A property value of the VM description: the kinds that render on the
/// QEMU command line (a float is held as its rendered text), and the rest.
#[derive(Debug, Clone)]
pub enum PropValue {
    Boolean(bool),
    String(String),
    Integer(i64),
    Float(String),
    Other,
}

/// Which QEMU binary runs the VM.
#[derive(Debug, Clone)]
pub struct QemuConfig {
    pub binary: String,
}

/// Machine type, firmware, accelerator, and whether default devices are
/// left out.
#[derive(Debug, Clone)]
pub struct PlatformSection {
    pub machine: String,
    pub bios: String,
    pub accel: String,
    pub nodefaults: bool,
}

/// The processor model and topology.
#[derive(Debug, Clone)]
pub struct CpuSection {
    pub model: String,
    pub topology: CpuTopology,
}

/// How many processors the VM has.
#[derive(Debug, Clone)]
pub struct CpuTopology {
    pub cpus: u32,
}

/// The memory size, in QEMU's notation.
#[derive(Debug, Clone)]
pub struct MemorySection {
    pub size: String,
}

/// The machine properties.
#[derive(Debug, Clone)]
pub struct MachineSection {
    pub properties: MachineProperties,
}

/// Machine properties by name, in name order.
#[derive(Debug, Clone)]
pub struct MachineProperties {
    pub values: Vec<(String, PropValue)>,
}

/// Which of QEMU's default devices the VM keeps.
#[derive(Debug, Clone)]
pub struct DefaultDevices {
    pub serial: bool,
    pub parallel: bool,
    pub monitor: bool,
    pub vga: bool,
    pub floppy: bool,
    pub cdrom: bool,
}

/// A network backend.
#[derive(Debug, Clone)]
pub struct Netdev {
    pub id: String,
    pub kind: String,
}

/// A device: its driver and properties by name, in name order.
#[derive(Debug, Clone)]
pub struct Device {
    pub driver: String,
    pub props: Vec<(String, PropValue)>,
}

/// The whole VM description.
#[derive(Debug, Clone)]
pub struct VmConfig {
    pub qemu: QemuConfig,
    pub platform: PlatformSection,
    pub cpu: CpuSection,
    pub memory: MemorySection,
    pub machine: MachineSection,
    pub defaults: DefaultDevices,
    pub netdevs: Vec<Netdev>,
    pub devices: Vec<Device>,
}

/// Whether the property names are strictly increasing, as the keys of a
/// map by name are: no name occurs twice and they come in string order.
pub open spec fn names_ordered(values: Seq<(String, PropValue)>) -> bool {
    forall|j: int, k: int|
        0 <= j < k < values.len() ==> text_less(#[trigger] values[j].0@, #[trigger] values[k].0@)
}

/// Whether every property list of the VM description is ordered by name.
pub open spec fn props_ordered(vm: VmConfig) -> bool {
    &&& names_ordered(vm.machine.properties.values@)
    &&& forall|i: int| 0 <= i < vm.devices@.len() ==> names_ordered(#[trigger] vm.devices@[i].props@)
}

/// Whether the property names are strictly increasing.
pub fn names_in_order(values: &Vec<(String, PropValue)>) -> (r: bool)
    ensures
        r == names_ordered(values@),
{
    let n = values.len();
    if n == 0 {
        return true;
    }
    let mut i: usize = 1;
    while i < n
        invariant
            1 <= i <= n,
            n == values@.len(),
            names_ordered(values@.take(i as int)),
        decreases n - i,
    {
        if !str_lt(values[i - 1].0.as_str(), values[i].0.as_str()) {
            assert(!names_ordered(values@)) by {
                assert(!text_less(values@[i - 1].0@, values@[i as int].0@));
            }
            return false;
        }
        proof {
            let v = values@;
            let t = v.take(i + 1);
            assert forall|j: int, k: int| 0 <= j < k < t.len() implies text_less(
                #[trigger] t[j].0@,
                #[trigger] t[k].0@,
            ) by {
                assert(t[j] == v[j] && t[k] == v[k]);
                if k < i {
                    assert(v.take(i as int)[j] == v[j] && v.take(i as int)[k] == v[k]);
                } else if j < i - 1 {
                    assert(v.take(i as int)[j] == v[j]);
                    assert(v.take(i as int)[i - 1] == v[i - 1]);
                    assert(text_less(v[j].0@, v[i - 1].0@));
                    lemma_bytes_less_transitive(utf8(v[j].0@), utf8(v[i - 1].0@), utf8(v[k].0@));
                }
            }
        }
        i += 1;
    }
    assert(values@.take(n as int) =~= values@);
    true
}

impl VmConfig {
    /// Whether every property list of the VM description is ordered by name,
    /// as when it was read from a map.
    pub fn props_in_order(&self) -> (r: bool)
        ensures
            r == props_ordered(*self),
    {
        if !names_in_order(&self.machine.properties.values) {
            return false;
        }
        let mut i: usize = 0;
        while i < self.devices.len()
            invariant
                i <= self.devices@.len(),
                forall|k: int| 0 <= k < i ==> names_ordered(#[trigger] self.devices@[k].props@),
            decreases self.devices@.len() - i,
        {
            if !names_in_order(&self.devices[i].props) {
                return false;
            }
            i += 1;
        }
        true
    }
}

/// The value of the first property named `key`.
pub open spec fn prop_lookup(values: Seq<(String, PropValue)>, key: Seq<char>) -> Option<PropValue>
    decreases values.len(),
{
    if values.len() == 0 {
        None
    } else if values[0].0@ == key {
        Some(values[0].1)
    } else {
        prop_lookup(values.drop_first(), key)
    }
}

/// The first property named `key`.
fn find_prop<'a>(values: &'a Vec<(String, PropValue)>, key: &str) -> (r: Option<&'a PropValue>)
    ensures
        match r {
            Some(v) => prop_lookup(values@, key@) == Some(*v),
            None => prop_lookup(values@, key@) is None,
        },
{
    let mut i: usize = 0;
    assert(values@.skip(0) =~= values@);
    while i < values.len()
        invariant
            i <= values@.len(),
            prop_lookup(values@, key@) == prop_lookup(values@.skip(i as int), key@),
        decreases values@.len() - i,
    {
        assert(values@.skip(i as int).drop_first() =~= values@.skip(i + 1));
        if str_eq(values[i].0.as_str(), key) {
            return Some(&values[i].1);
        }
        i += 1;
    }
    None
}

/// A boolean property's value.
pub open spec fn prop_bool(values: Seq<(String, PropValue)>, key: Seq<char>) -> Option<bool> {
    match prop_lookup(values, key) {
        Some(PropValue::Boolean(b)) => Some(b),
        _ => None,
    }
}

/// A string property's value.
pub open spec fn prop_string(values: Seq<(String, PropValue)>, key: Seq<char>) -> Option<String> {
    match prop_lookup(values, key) {
        Some(PropValue::String(s)) => Some(s),
        _ => None,
    }
}

/// The TPM interface a machine property names.
pub open spec fn tpm_kind_of(text: Seq<char>) -> Option<TpmKind> {
    if text == "1.2"@ || text == "tcpa"@ || text == "tpm12"@ {
        Some(TpmKind::Tcpa)
    } else if text == "2.0"@ || text == "tpm2"@ {
        Some(TpmKind::Tpm2)
    } else {
        None
    }
}

/// The IOMMU a machine property names.
pub open spec fn iommu_kind_of(text: Seq<char>) -> Option<IommuKind> {
    if text == "intel"@ || text == "dmar"@ {
        Some(IommuKind::Dmar)
    } else if text == "amd"@ || text == "ivrs"@ {
        Some(IommuKind::Ivrs)
    } else if text == "virtio"@ || text == "viot"@ {
        Some(IommuKind::Viot)
    } else {
        None
    }
}

/// How a property value is written on the QEMU command line: booleans as
/// on/off, strings as they are, numbers in decimal; other kinds not at all.
pub open spec fn rendered(v: PropValue) -> Option<Seq<char>> {
    match v {
        PropValue::Boolean(b) => Some(
            if b {
                "on"@
            } else {
                "off"@
            },
        ),
        PropValue::String(s) => Some(s@),
        PropValue::Integer(i) => Some(int_chars(i as int)),
        PropValue::Float(text) => Some(text@),
        PropValue::Other => None,
    }
}

/// `key=value` for each property that renders, in order.
pub open spec fn qemu_pairs(values: Seq<(String, PropValue)>) -> Seq<Seq<char>>
    decreases values.len(),
{
    if values.len() == 0 {
        Seq::empty()
    } else {
        qemu_pairs(values.drop_last()) + match rendered(values.last().1) {
            Some(r) => seq![values.last().0@ + "="@ + r],
            None => Seq::empty(),
        }
    }
}

/// The rendering of a property value.
fn render_value(v: &PropValue) -> (r: Option<String>)
    ensures
        match r {
            Some(text) => rendered(*v) == Some(text@),
            None => rendered(*v) is None,
        },
{
    match v {
        PropValue::Boolean(b) => Some(
            if *b {
                String::from_str("on")
            } else {
                String::from_str("off")
            },
        ),
        PropValue::String(s) => Some(s.clone()),
        PropValue::Integer(i) => Some(int_to_string(*i)),
        PropValue::Float(text) => Some(text.clone()),
        PropValue::Other => None,
    }
}

/// `key=value` for one property.
fn key_value(key: &String, value: &String) -> (s: String)
    ensures
        s@ == key@ + "="@ + value@,
{
    let mut s = key.clone();
    s.append("=");
    s.append(value.as_str());
    s
}

impl MachineProperties {
    /// A boolean machine property.
    pub fn bool(&self, key: &str) -> (r: Option<bool>)
        ensures
            r == prop_bool(self.values@, key@),
    {
        match find_prop(&self.values, key) {
            Some(PropValue::Boolean(value)) => Some(*value),
            _ => None,
        }
    }

    /// A string machine property.
    pub fn string(&self, key: &str) -> (r: Option<&str>)
        ensures
            match r {
                Some(text) => prop_string(self.values@, key@) matches Some(s) && s@ == text@,
                None => prop_string(self.values@, key@) is None,
            },
    {
        match find_prop(&self.values, key) {
            Some(PropValue::String(value)) => Some(value.as_str()),
            _ => None,
        }
    }

    /// The TPM interface the `tpm` property names.
    pub fn tpm_kind(&self) -> (r: Option<TpmKind>)
        ensures
            r == match prop_string(self.values@, "tpm"@) {
                Some(s) => tpm_kind_of(s@),
                None => None,
            },
    {
        let text = self.string("tpm")?;
        if str_eq(text, "1.2") || str_eq(text, "tcpa") || str_eq(text, "tpm12") {
            Some(TpmKind::Tcpa)
        } else if str_eq(text, "2.0") || str_eq(text, "tpm2") {
            Some(TpmKind::Tpm2)
        } else {
            None
        }
    }

    /// The IOMMU the `iommu` property names.
    pub fn iommu_kind(&self) -> (r: Option<IommuKind>)
        ensures
            r == match prop_string(self.values@, "iommu"@) {
                Some(s) => iommu_kind_of(s@),
                None => None,
            },
    {
        let text = self.string("iommu")?;
        if str_eq(text, "intel") || str_eq(text, "dmar") {
            Some(IommuKind::Dmar)
        } else if str_eq(text, "amd") || str_eq(text, "ivrs") {
            Some(IommuKind::Ivrs)
        } else if str_eq(text, "virtio") || str_eq(text, "viot") {
            Some(IommuKind::Viot)
        } else {
            None
        }
    }

    /// `key=value` for every property that renders, in order.
    pub fn to_qemu_pairs(&self) -> (pairs: Vec<String>)
        ensures
            pairs@.map_values(|p: String| p@) == qemu_pairs(self.values@),
    {
        to_pairs(&self.values)
    }
}

impl DefaultDevices {
    /// Whether the serial port gets the stdio backend: when the default
    /// serial device is not kept.
    pub fn serial_backend(&self) -> (r: bool)
        ensures
            r == !self.serial,
    {
        !self.serial
    }
}

/// `kind,id=id`.
pub open spec fn netdev_value(n: Netdev) -> Seq<char> {
    n.kind@ + ",id="@ + n.id@
}

impl Netdev {
    /// The value of the `-netdev` option.
    pub fn to_qemu_value(&self) -> (s: String)
        ensures
            s@ == netdev_value(*self),
    {
        let mut s = self.kind.clone();
        s.append(",id=");
        s.append(self.id.as_str());
        s
    }
}

/// The driver, then `,key=value` for each property that renders.
pub open spec fn device_value(d: Device) -> Seq<char> {
    d.driver@ + join_prefixed(qemu_pairs(d.props@))
}

/// Each part after a comma.
pub open spec fn join_prefixed(parts: Seq<Seq<char>>) -> Seq<char>
    decreases parts.len(),
{
    if parts.len() == 0 {
        Seq::empty()
    } else {
        join_prefixed(parts.drop_last()) + ","@ + parts.last()
    }
}

/// The TPM interface a device driver provides.
pub open spec fn device_tpm_kind(driver: Seq<char>) -> Option<TpmKind> {
    if contains_text(driver, "tpm-tis"@) || contains_text(driver, "tpm-spapr"@) {
        Some(TpmKind::Tcpa)
    } else if contains_text(driver, "tpm-crb"@) {
        Some(TpmKind::Tpm2)
    } else {
        None
    }
}

/// The IOMMU a device driver provides.
pub open spec fn device_iommu_kind(driver: Seq<char>) -> Option<IommuKind> {
    if driver == "intel-iommu"@ {
        Some(IommuKind::Dmar)
    } else if driver == "amd-iommu"@ {
        Some(IommuKind::Ivrs)
    } else if driver == "virtio-iommu-pci"@ {
        Some(IommuKind::Viot)
    } else {
        None
    }
}

/// TPM devices and the `tpm` machine property name TPM interfaces
/// alike: a TIS or sPAPR TPM (and the `1.2`, `tcpa`, `tpm12` property) is
/// a TPM 1.2 described by the TCPA table; a CRB TPM (and the `2.0`,
/// `tpm2` property) is a TPM 2.0 described by the TPM2 table; any other
/// driver provides none.
#[verifier::spinoff_prover]
pub proof fn lemma_tpm_kinds(driver: Seq<char>)
    ensures
        contains_text(driver, "tpm-tis"@) || contains_text(driver, "tpm-spapr"@)
            ==> device_tpm_kind(driver) == Some(TpmKind::Tcpa),
        !contains_text(driver, "tpm-tis"@) && !contains_text(driver, "tpm-spapr"@)
            && contains_text(driver, "tpm-crb"@) ==> device_tpm_kind(driver) == Some(
            TpmKind::Tpm2,
        ),
        device_tpm_kind(driver) is None <==> (!contains_text(driver, "tpm-tis"@)
            && !contains_text(driver, "tpm-spapr"@) && !contains_text(driver, "tpm-crb"@)),
        tpm_kind_of("1.2"@) == Some(TpmKind::Tcpa),
        tpm_kind_of("tcpa"@) == Some(TpmKind::Tcpa),
        tpm_kind_of("tpm12"@) == Some(TpmKind::Tcpa),
        tpm_kind_of("2.0"@) == Some(TpmKind::Tpm2),
        tpm_kind_of("tpm2"@) == Some(TpmKind::Tpm2),
{
    reveal_strlit("1.2");
    reveal_strlit("tcpa");
    reveal_strlit("tpm12");
    reveal_strlit("2.0");
    reveal_strlit("tpm2");
    assert("2.0"@[0] != "1.2"@[0]);
    assert("2.0"@.len() != "tcpa"@.len() && "2.0"@.len() != "tpm12"@.len());
    assert("tpm2"@.len() != "1.2"@.len() && "tpm2"@[1] != "tcpa"@[1]);
    assert("tpm2"@.len() != "tpm12"@.len());
}

/// Each IOMMU device names the same IOMMU kind as the machine property for
/// its vendor: `intel-iommu` is the Intel DMAR (as `iommu = "intel"`),
/// `amd-iommu` the AMD IVRS (as `iommu = "amd"`) and `virtio-iommu-pci` the
/// virtio VIOT (as `iommu = "virtio"`); no other driver provides one.
#[verifier::spinoff_prover]
pub proof fn lemma_iommu_kinds_agree(driver: Seq<char>)
    ensures
        device_iommu_kind(driver) == Some(IommuKind::Dmar) <==> driver == "intel-iommu"@,
        device_iommu_kind(driver) == Some(IommuKind::Ivrs) <==> driver == "amd-iommu"@,
        device_iommu_kind(driver) == Some(IommuKind::Viot) <==> driver == "virtio-iommu-pci"@,
        device_iommu_kind(driver) is None <==> (driver != "intel-iommu"@ && driver
            != "amd-iommu"@ && driver != "virtio-iommu-pci"@),
        iommu_kind_of("intel"@) == Some(IommuKind::Dmar),
        iommu_kind_of("amd"@) == Some(IommuKind::Ivrs),
        iommu_kind_of("virtio"@) == Some(IommuKind::Viot),
        device_iommu_kind("intel-iommu"@) == iommu_kind_of("intel"@),
        device_iommu_kind("amd-iommu"@) == iommu_kind_of("amd"@),
        device_iommu_kind("virtio-iommu-pci"@) == iommu_kind_of("virtio"@),
{
    reveal_strlit("intel-iommu");
    reveal_strlit("amd-iommu");
    reveal_strlit("virtio-iommu-pci");
    reveal_strlit("intel");
    reveal_strlit("dmar");
    reveal_strlit("amd");
    reveal_strlit("ivrs");
    reveal_strlit("virtio");
    reveal_strlit("viot");
    assert("amd-iommu"@[0] != "intel-iommu"@[0]);
    assert("virtio-iommu-pci"@[0] != "intel-iommu"@[0]);
    assert("virtio-iommu-pci"@[0] != "amd-iommu"@[0]);
    assert("amd"@[0] != "intel"@[0] && "amd"@[0] != "dmar"@[0]);
    assert("virtio"@.len() != "intel"@.len() && "virtio"@.len() != "dmar"@.len());
    assert("virtio"@.len() != "amd"@.len() && "virtio"@.len() != "ivrs"@.len());
}

impl Device {
    /// A string property of the device.
    fn string_prop(&self, key: &str) -> (r: Option<String>)
        ensures
            r == prop_string(self.props@, key@),
    {
        match find_prop(&self.props, key) {
            Some(PropValue::String(value)) => Some(value.clone()),
            _ => None,
        }
    }

    /// The devfn of the device's `addr` property.
    fn devfn(&self) -> (r: Option<u8>)
        ensures
            r == match prop_lookup(self.props@, "addr"@) {
                Some(PropValue::String(addr)) => parse_addr(utf8(addr@)),
                _ => None,
            },
    {
        let addr = find_prop(&self.props, "addr")?;
        match addr {
            PropValue::String(addr) => parse_qemu_addr(addr.as_str()),
            _ => None,
        }
    }

    /// The TPM interface the device provides.
    fn tpm_kind(&self) -> (r: Option<TpmKind>)
        ensures
            r == device_tpm_kind(self.driver@),
    {
        let driver = self.driver.as_str();
        if str_contains(driver, "tpm-tis") || str_contains(driver, "tpm-spapr") {
            Some(TpmKind::Tcpa)
        } else if str_contains(driver, "tpm-crb") {
            Some(TpmKind::Tpm2)
        } else {
            None
        }
    }

    /// The IOMMU the device provides.
    fn iommu_kind(&self) -> (r: Option<IommuKind>)
        ensures
            r == device_iommu_kind(self.driver@),
    {
        let driver = self.driver.as_str();
        if str_eq(driver, "intel-iommu") {
            Some(IommuKind::Dmar)
        } else if str_eq(driver, "amd-iommu") {
            Some(IommuKind::Ivrs)
        } else if str_eq(driver, "virtio-iommu-pci") {
            Some(IommuKind::Viot)
        } else {
            None
        }
    }

    fn is_nvdimm(&self) -> (r: bool)
        ensures
            r == contains_text(self.driver@, "nvdimm"@),
    {
        str_contains(self.driver.as_str(), "nvdimm")
    }

    fn is_cxl(&self) -> (r: bool)
        ensures
            r == contains_text(self.driver@, "cxl"@),
    {
        str_contains(self.driver.as_str(), "cxl")
    }

    fn is_vmgenid(&self) -> (r: bool)
        ensures
            r == contains_text(self.driver@, "vmgenid"@),
    {
        str_contains(self.driver.as_str(), "vmgenid")
    }

    /// The value of the `-device` option.
    fn to_qemu_value(&self) -> (s: String)
        ensures
            s@ == device_value(*self),
    {
        let mut s = self.driver.clone();
        let rendered_pairs = to_pairs(&self.props);
        let mut i: usize = 0;
        while i < rendered_pairs.len()
            invariant
                i <= rendered_pairs@.len(),
                rendered_pairs@.map_values(|p: String| p@) == qemu_pairs(self.props@),
                s@ == self.driver@ + join_prefixed(
                    rendered_pairs@.map_values(|p: String| p@).take(i as int),
                ),
            decreases rendered_pairs@.len() - i,
        {
            let ghost parts = rendered_pairs@.map_values(|p: String| p@);
            assert(parts.take(i + 1).drop_last() =~= parts.take(i as int));
            s.append(",");
            s.append(rendered_pairs[i].as_str());
            i += 1;
            assert(s@ =~= self.driver@ + join_prefixed(parts.take(i as int)));
        }
        assert(rendered_pairs@.map_values(|p: String| p@).take(i as int) =~= qemu_pairs(self.props@));
        s
    }
}

/// `key=value` for every property of `values` that renders.
fn to_pairs(values: &Vec<(String, PropValue)>) -> (pairs: Vec<String>)
    ensures
        pairs@.map_values(|p: String| p@) == qemu_pairs(values@),
{
    let mut pairs: Vec<String> = Vec::new();
    let mut i: usize = 0;
    while i < values.len()
        invariant
            i <= values@.len(),
            pairs@.map_values(|p: String| p@) == qemu_pairs(values@.take(i as int)),
        decreases values@.len() - i,
    {
        let (key, value) = &values[i];
        assert(values@.take(i + 1).drop_last() =~= values@.take(i as int));
        match render_value(value) {
            Some(text) => {
                let pair = key_value(key, &text);
                pairs.push(pair);
            },
            None => {},
        }
        i += 1;
        assert(pairs@.map_values(|p: String| p@) =~= qemu_pairs(values@.take(i as int)));
    }
    assert(values@.take(i as int) =~= values@);
    pairs
}

// ---------------------------------------------------------------------
// The QEMU command line.
// ---------------------------------------------------------------------

/// The `-netdev` options, in order.
pub open spec fn netdev_args(netdevs: Seq<Netdev>) -> Seq<Seq<char>>
    decreases netdevs.len(),
{
    if netdevs.len() == 0 {
        Seq::empty()
    } else {
        netdev_args(netdevs.drop_last()) + seq!["-netdev"@, netdev_value(netdevs.last())]
    }
}

/// The `-device` options, in order.
pub open spec fn device_args(devices: Seq<Device>) -> Seq<Seq<char>>
    decreases devices.len(),
{
    if devices.len() == 0 {
        Seq::empty()
    } else {
        device_args(devices.drop_last()) + seq!["-device"@, device_value(devices.last())]
    }
}

/// The `-machine` value: the machine type, then the rendered properties.
pub open spec fn machine_arg_of(vm: VmConfig) -> Seq<char> {
    vm.platform.machine@ + join_prefixed(qemu_pairs(vm.machine.properties.values@))
}

/// The VM runs without a display: no VGA, monitor, parallel port, floppy
/// or CD-ROM is kept.
pub open spec fn is_headless(vm: VmConfig) -> bool {
    !vm.defaults.vga && !vm.defaults.monitor && !vm.defaults.parallel && !vm.defaults.floppy
        && !vm.defaults.cdrom
}

/// The QEMU arguments of a VM: accelerator, memory, processor count and
/// model, machine, firmware; `-nographic` when headless; `-nodefaults`
/// when asked; a stdio serial port when the default one is not kept; then
/// the network backends and the devices.
pub open spec fn qemu_args_of(vm: VmConfig) -> Seq<Seq<char>> {
    seq![
        "-accel"@,
        vm.platform.accel@,
        "-m"@,
        vm.memory.size@,
        "-smp"@,
        decimal_chars(vm.cpu.topology.cpus as nat),
        "-cpu"@,
        vm.cpu.model@,
        "-machine"@,
        machine_arg_of(vm),
        "-bios"@,
        vm.platform.bios@,
    ] + (if is_headless(vm) {
        seq!["-nographic"@]
    } else {
        Seq::empty()
    }) + (if vm.platform.nodefaults {
        seq!["-nodefaults"@]
    } else {
        Seq::empty()
    }) + (if !vm.defaults.serial {
        seq!["-serial"@, "stdio"@]
    } else {
        Seq::empty()
    }) + netdev_args(vm.netdevs@) + device_args(vm.devices@)
}

proof fn lemma_netdev_args_at(netdevs: Seq<Netdev>, k: int)
    ensures
        netdev_args(netdevs).len() == 2 * netdevs.len(),
        0 <= k < netdevs.len() ==> netdev_args(netdevs)[2 * k] == "-netdev"@ && netdev_args(
            netdevs,
        )[2 * k + 1] == netdevs[k].kind@ + ",id="@ + netdevs[k].id@,
    decreases netdevs.len(),
{
    if netdevs.len() > 0 {
        lemma_netdev_args_at(netdevs.drop_last(), k);
    }
}

proof fn lemma_device_args_at(devices: Seq<Device>, k: int)
    ensures
        device_args(devices).len() == 2 * devices.len(),
        0 <= k < devices.len() ==> device_args(devices)[2 * k] == "-device"@ && device_args(
            devices,
        )[2 * k + 1] == device_value(devices[k]),
    decreases devices.len(),
{
    if devices.len() > 0 {
        lemma_device_args_at(devices.drop_last(), k);
    }
}

/// Whether `args` holds the option `option` at `i` and its value `value`
/// right after it.
pub open spec fn option_at(args: Seq<Seq<char>>, i: int, option: Seq<char>, value: Seq<char>) -> bool {
    args[i] == option && args[i + 1] == value
}

/// How many arguments come before the network backends: six options with
/// their values, then `-nographic` when no display device is kept,
/// `-nodefaults` when asked, and `-serial stdio` when the default serial
/// port is not kept.
pub open spec fn fixed_arg_count(vm: VmConfig) -> int {
    let d = vm.defaults;
    12 + (if !d.vga && !d.monitor && !d.parallel && !d.floppy && !d.cdrom {
        1int
    } else {
        0int
    }) + (if vm.platform.nodefaults {
        1int
    } else {
        0int
    }) + (if !d.serial {
        2int
    } else {
        0int
    })
}

/// The shape of the QEMU command line: the options `-accel`, `-m`, `-smp`
/// (whose decimal value is the processor count), `-cpu`, `-machine` (its
/// value starting with the machine type) and `-bios` with their values;
/// then `-nographic` exactly when no display device is kept, `-nodefaults`
/// exactly when asked, `-serial stdio` exactly when the default serial port
/// is not kept; then one `-netdev kind,id=id` per network backend and one
/// `-device` per device, in order, and nothing else.
#[verifier::spinoff_prover]
proof fn lemma_qemu_args_split(vm: VmConfig)
    ensures
        qemu_args_of(vm).len() == fixed_arg_count(vm) + 2 * vm.netdevs@.len() + 2
            * vm.devices@.len(),
        qemu_args_of(vm).subrange(fixed_arg_count(vm), fixed_arg_count(vm) + 2
            * vm.netdevs@.len()) == netdev_args(vm.netdevs@),
        qemu_args_of(vm).subrange(
            fixed_arg_count(vm) + 2 * vm.netdevs@.len(),
            qemu_args_of(vm).len() as int,
        ) == device_args(vm.devices@),
{
    lemma_netdev_args_at(vm.netdevs@, 0);
    lemma_device_args_at(vm.devices@, 0);
    let o = fixed_arg_count(vm);
    let pre = qemu_args_of(vm).subrange(0, o);
    let na = netdev_args(vm.netdevs@);
    let da = device_args(vm.devices@);
    assert(qemu_args_of(vm).len() == o + na.len() + da.len());
    assert(qemu_args_of(vm).subrange(o, o + na.len()) =~= na);
    assert(qemu_args_of(vm).subrange(o + na.len(), qemu_args_of(vm).len() as int) =~= da);
}

#[verifier::spinoff_prover]
proof fn lemma_qemu_netdev_args(vm: VmConfig)
    ensures
        forall|k: int|
            0 <= k < vm.netdevs@.len() ==> option_at(
                qemu_args_of(vm),
                fixed_arg_count(vm) + 2 * k,
                "-netdev"@,
                (#[trigger] vm.netdevs@[k]).kind@ + ",id="@ + vm.netdevs@[k].id@,
            ),
{
    lemma_qemu_args_split(vm);
    let a = qemu_args_of(vm);
    let o = fixed_arg_count(vm);
    let na = netdev_args(vm.netdevs@);
    assert forall|k: int| 0 <= k < vm.netdevs@.len() implies option_at(
        a,
        o + 2 * k,
        "-netdev"@,
        (#[trigger] vm.netdevs@[k]).kind@ + ",id="@ + vm.netdevs@[k].id@,
    ) by {
        lemma_netdev_args_at(vm.netdevs@, k);
        assert(a.subrange(o, o + na.len())[2 * k] == a[o + 2 * k]);
        assert(a.subrange(o, o + na.len())[2 * k + 1] == a[o + 2 * k + 1]);
    }
}

#[verifier::spinoff_prover]
proof fn lemma_qemu_device_args(vm: VmConfig)
    ensures
        forall|k: int|
            0 <= k < vm.devices@.len() ==> option_at(
                qemu_args_of(vm),
                fixed_arg_count(vm) + 2 * vm.netdevs@.len() + 2 * k,
                "-device"@,
                device_value(#[trigger] vm.devices@[k]),
            ),
{
    lemma_qemu_args_split(vm);
    let a = qemu_args_of(vm);
    let p = fixed_arg_count(vm) + 2 * vm.netdevs@.len();
    let da = device_args(vm.devices@);
    assert forall|k: int| 0 <= k < vm.devices@.len() implies option_at(
        a,
        p + 2 * k,
        "-device"@,
        device_value(#[trigger] vm.devices@[k]),
    ) by {
        lemma_device_args_at(vm.devices@, k);
        assert(a.subrange(p, a.len() as int)[2 * k] == a[p + 2 * k]);
        assert(a.subrange(p, a.len() as int)[2 * k + 1] == a[p + 2 * k + 1]);
    }
}

#[verifier::spinoff_prover]
pub proof fn lemma_qemu_args_shape(vm: VmConfig)
    ensures
        qemu_args_of(vm).len() == fixed_arg_count(vm) + 2 * vm.netdevs@.len() + 2
            * vm.devices@.len(),
        qemu_args_of(vm)[0] == "-accel"@ && qemu_args_of(vm)[1] == vm.platform.accel@,
        qemu_args_of(vm)[2] == "-m"@ && qemu_args_of(vm)[3] == vm.memory.size@,
        qemu_args_of(vm)[4] == "-smp"@ && decimal_value(qemu_args_of(vm)[5])
            == vm.cpu.topology.cpus,
        qemu_args_of(vm)[6] == "-cpu"@ && qemu_args_of(vm)[7] == vm.cpu.model@,
        qemu_args_of(vm)[8] == "-machine"@ && qemu_args_of(vm)[9].subrange(
            0,
            vm.platform.machine@.len() as int,
        ) == vm.platform.machine@,
        qemu_args_of(vm)[10] == "-bios"@ && qemu_args_of(vm)[11] == vm.platform.bios@,
        (!vm.defaults.vga && !vm.defaults.monitor && !vm.defaults.parallel
            && !vm.defaults.floppy && !vm.defaults.cdrom) ==> qemu_args_of(vm)[12]
            == "-nographic"@,
        vm.platform.nodefaults ==> qemu_args_of(vm)[fixed_arg_count(vm) - (if !vm.defaults.serial {
            2int
        } else {
            0int
        }) - 1] == "-nodefaults"@,
        !vm.defaults.serial ==> qemu_args_of(vm)[fixed_arg_count(vm) - 2] == "-serial"@
            && qemu_args_of(vm)[fixed_arg_count(vm) - 1] == "stdio"@,
        forall|k: int|
            0 <= k < vm.netdevs@.len() ==> option_at(
                qemu_args_of(vm),
                fixed_arg_count(vm) + 2 * k,
                "-netdev"@,
                (#[trigger] vm.netdevs@[k]).kind@ + ",id="@ + vm.netdevs@[k].id@,
            ),
        forall|k: int|
            0 <= k < vm.devices@.len() ==> option_at(
                qemu_args_of(vm),
                fixed_arg_count(vm) + 2 * vm.netdevs@.len() + 2 * k,
                "-device"@,
                device_value(#[trigger] vm.devices@[k]),
            ),
{
    lemma_qemu_args_split(vm);
    lemma_qemu_netdev_args(vm);
    lemma_qemu_device_args(vm);
    crate::acpi::text::lemma_decimal_chars_value(vm.cpu.topology.cpus as nat);
    assert(machine_arg_of(vm).subrange(0, vm.platform.machine@.len() as int)
        =~= vm.platform.machine@);
}

/// Pushes a string made from a literal.
fn push_literal(args: &mut Vec<String>, text: &str)
    ensures
        final(args)@.map_values(|a: String| a@) == old(args)@.map_values(|a: String| a@).push(
            text@,
        ),
{
    args.push(String::from_str(text));
    assert(final(args)@.map_values(|a: String| a@) =~= old(args)@.map_values(|a: String| a@).push(
        text@,
    ));
}

/// Pushes a string.
fn push_string(args: &mut Vec<String>, text: String)
    ensures
        final(args)@.map_values(|a: String| a@) == old(args)@.map_values(|a: String| a@).push(
            text@,
        ),
{
    let ghost t = text@;
    args.push(text);
    assert(final(args)@.map_values(|a: String| a@) =~= old(args)@.map_values(|a: String| a@).push(
        t,
    ));
}

// ---------------------------------------------------------------------
// The platform configuration.
// ---------------------------------------------------------------------

/// Whether a device is a PCI device: its driver ends in `-pci`.
pub open spec fn is_pci_driver(d: Device) -> bool {
    ends_with_text(d.driver@, "-pci"@)
}

/// The devfn of a device's `addr` property, when it has a valid one.
pub open spec fn device_devfn(d: Device) -> Option<u8> {
    match prop_lookup(d.props@, "addr"@) {
        Some(PropValue::String(addr)) => parse_addr(utf8(addr@)),
        _ => None,
    }
}

/// The PCI configuration of the `index`-th PCI device: driver, `id` and
/// `bus` properties, and the devfn of its address or slot `index + 1`.
pub open spec fn pci_config_of(d: Device, index: nat) -> PciDeviceConfig {
    PciDeviceConfig {
        driver: d.driver,
        id: prop_string(d.props@, "id"@),
        bus: prop_string(d.props@, "bus"@),
        devfn: match device_devfn(d) {
            Some(v) => v,
            None => default_devfn_of(index),
        },
    }
}

/// The PCI configurations of the PCI devices among `devices`, in order.
pub open spec fn pci_configs(devices: Seq<Device>) -> Seq<PciDeviceConfig>
    decreases devices.len(),
{
    if devices.len() == 0 {
        Seq::empty()
    } else {
        let prev = pci_configs(devices.drop_last());
        if is_pci_driver(devices.last()) {
            prev.push(pci_config_of(devices.last(), prev.len()))
        } else {
            prev
        }
    }
}

/// Where a device with `devfn` goes in a list sorted by devfn: after every
/// device whose devfn is not larger.
pub open spec fn insert_pos(sorted: Seq<PciDeviceConfig>, devfn: u8) -> nat
    decreases sorted.len(),
{
    if sorted.len() == 0 {
        0
    } else if sorted.last().devfn <= devfn {
        sorted.len()
    } else {
        insert_pos(sorted.drop_last(), devfn)
    }
}

/// `s` sorted by devfn; devices with equal devfn keep their order.
pub open spec fn sorted_by_devfn(s: Seq<PciDeviceConfig>) -> Seq<PciDeviceConfig>
    decreases s.len(),
{
    if s.len() == 0 {
        Seq::empty()
    } else {
        let r = sorted_by_devfn(s.drop_last());
        r.insert(insert_pos(r, s.last().devfn) as int, s.last())
    }
}

/// The first TPM interface that a device provides.
pub open spec fn first_device_tpm(devices: Seq<Device>) -> Option<TpmKind>
    decreases devices.len(),
{
    if devices.len() == 0 {
        None
    } else {
        match device_tpm_kind(devices[0].driver@) {
            Some(k) => Some(k),
            None => first_device_tpm(devices.drop_first()),
        }
    }
}

/// The first IOMMU that a device provides.
pub open spec fn first_device_iommu(devices: Seq<Device>) -> Option<IommuKind>
    decreases devices.len(),
{
    if devices.len() == 0 {
        None
    } else {
        match device_iommu_kind(devices[0].driver@) {
            Some(k) => Some(k),
            None => first_device_iommu(devices.drop_first()),
        }
    }
}

/// Whether some device driver contains `needle`.
pub open spec fn any_driver_contains(devices: Seq<Device>, needle: Seq<char>) -> bool {
    exists|i: int| 0 <= i < devices.len() && contains_text(#[trigger] devices[i].driver@, needle)
}

/// The value of `Some`, or `default`.
pub open spec fn or_default<T>(o: Option<T>, default: T) -> T {
    match o {
        Some(v) => v,
        None => default,
    }
}

/// The first of two options that has a value.
pub open spec fn or_else<T>(a: Option<T>, b: Option<T>) -> Option<T> {
    match a {
        Some(v) => Some(v),
        None => b,
    }
}

fn any_driver_contains_exec(devices: &Vec<Device>, needle: &str) -> (r: bool)
    ensures
        r == any_driver_contains(devices@, needle@),
{
    let mut i: usize = 0;
    while i < devices.len()
        invariant
            i <= devices@.len(),
            forall|k: int| 0 <= k < i ==> !contains_text(#[trigger] devices@[k].driver@, needle@),
        decreases devices@.len() - i,
    {
        if str_contains(devices[i].driver.as_str(), needle) {
            return true;
        }
        i += 1;
    }
    false
}

fn first_tpm(devices: &Vec<Device>) -> (r: Option<TpmKind>)
    ensures
        r == first_device_tpm(devices@),
{
    let mut i: usize = 0;
    assert(devices@.skip(0) =~= devices@);
    while i < devices.len()
        invariant
            i <= devices@.len(),
            first_device_tpm(devices@) == first_device_tpm(devices@.skip(i as int)),
        decreases devices@.len() - i,
    {
        assert(devices@.skip(i as int).drop_first() =~= devices@.skip(i + 1));
        let k = devices[i].tpm_kind();
        if k.is_some() {
            return k;
        }
        i += 1;
    }
    None
}

fn first_iommu(devices: &Vec<Device>) -> (r: Option<IommuKind>)
    ensures
        r == first_device_iommu(devices@),
{
    let mut i: usize = 0;
    assert(devices@.skip(0) =~= devices@);
    while i < devices.len()
        invariant
            i <= devices@.len(),
            first_device_iommu(devices@) == first_device_iommu(devices@.skip(i as int)),
        decreases devices@.len() - i,
    {
        assert(devices@.skip(i as int).drop_first() =~= devices@.skip(i + 1));
        let k = devices[i].iommu_kind();
        if k.is_some() {
            return k;
        }
        i += 1;
    }
    None
}

/// Sorts devices by devfn, keeping the order of devices with equal devfn.
fn sort_by_devfn(devices: Vec<PciDeviceConfig>) -> (sorted: Vec<PciDeviceConfig>)
    ensures
        sorted@ == sorted_by_devfn(devices@),
{
    let ghost input = devices@;
    let n = devices.len();
    let mut rest = devices;
    let mut sorted: Vec<PciDeviceConfig> = Vec::new();
    let mut k: usize = 0;
    assert(input.take(0) =~= Seq::<PciDeviceConfig>::empty());
    assert(input.skip(0) =~= input);
    while rest.len() > 0
        invariant
            k <= input.len(),
            input.len() == n,
            rest@ == input.skip(k as int),
            sorted@ == sorted_by_devfn(input.take(k as int)),
        decreases rest@.len(),
    {
        let x = rest.remove(0);
        assert(input.take(k + 1).drop_last() =~= input.take(k as int));
        assert(x == input[k as int]);
        let mut j: usize = sorted.len();
        assert(sorted@.take(j as int) =~= sorted@);
        while j > 0 && sorted[j - 1].devfn > x.devfn
            invariant
                j <= sorted@.len(),
                insert_pos(sorted@, x.devfn) == insert_pos(sorted@.take(j as int), x.devfn),
            decreases j,
        {
            assert(sorted@.take(j as int).drop_last() =~= sorted@.take(j - 1));
            j -= 1;
        }
        proof {
            if j > 0 {
                assert(sorted@.take(j as int).last() == sorted@[j - 1]);
            }
        }
        sorted.insert(j, x);
        k += 1;
        assert(rest@ =~= input.skip(k as int));
    }
    assert(input.take(k as int) =~= input);
    sorted
}

/// The machine property `key` as a boolean, or `default`.
fn bool_or(props: &MachineProperties, key: &str, default: bool) -> (r: bool)
    ensures
        r == or_default(prop_bool(props.values@, key@), default),
{
    match props.bool(key) {
        Some(v) => v,
        None => default,
    }
}

impl VmConfig {
    /// The `-machine` value.
    fn machine_arg(&self) -> (s: String)
        ensures
            s@ == machine_arg_of(*self),
    {
        let pairs = self.machine.properties.to_qemu_pairs();
        let mut s = self.platform.machine.clone();
        let mut i: usize = 0;
        while i < pairs.len()
            invariant
                i <= pairs@.len(),
                pairs@.map_values(|p: String| p@) == qemu_pairs(self.machine.properties.values@),
                s@ == self.platform.machine@ + join_prefixed(
                    pairs@.map_values(|p: String| p@).take(i as int),
                ),
            decreases pairs@.len() - i,
        {
            let ghost parts = pairs@.map_values(|p: String| p@);
            assert(parts.take(i + 1).drop_last() =~= parts.take(i as int));
            s.append(",");
            s.append(pairs[i].as_str());
            i += 1;
            assert(s@ =~= self.platform.machine@ + join_prefixed(parts.take(i as int)));
        }
        assert(pairs@.map_values(|p: String| p@).take(i as int) =~= qemu_pairs(
            self.machine.properties.values@,
        ));
        s
    }

    /// Whether the VM runs without a display.
    fn headless(&self) -> (r: bool)
        ensures
            r == is_headless(*self),
    {
        !self.defaults.vga && !self.defaults.monitor && !self.defaults.parallel
            && !self.defaults.floppy && !self.defaults.cdrom
    }

    /// The QEMU command-line arguments of the VM.
    pub fn qemu_args(&self) -> (args: Vec<String>)
        requires
            props_ordered(*self),
        ensures
            args@.map_values(|a: String| a@) == qemu_args_of(*self),
    {
        let mut args: Vec<String> = Vec::new();
        push_literal(&mut args, "-accel");
        push_string(&mut args, self.platform.accel.clone());
        push_literal(&mut args, "-m");
        push_string(&mut args, self.memory.size.clone());
        push_literal(&mut args, "-smp");
        let mut cpus = String::new();
        push_decimal(&mut cpus, self.cpu.topology.cpus as u64);
        assert(cpus@ =~= decimal_chars(self.cpu.topology.cpus as nat));
        push_string(&mut args, cpus);
        push_literal(&mut args, "-cpu");
        push_string(&mut args, self.cpu.model.clone());
        push_literal(&mut args, "-machine");
        push_string(&mut args, self.machine_arg());
        push_literal(&mut args, "-bios");
        push_string(&mut args, self.platform.bios.clone());
        let ghost head = args@.map_values(|a: String| a@);
        if self.headless() {
            push_literal(&mut args, "-nographic");
        }
        if self.platform.nodefaults {
            push_literal(&mut args, "-nodefaults");
        }
        if self.defaults.serial_backend() {
            push_literal(&mut args, "-serial");
            push_literal(&mut args, "stdio");
        }
        let ghost before_netdevs = args@.map_values(|a: String| a@);
        let mut i: usize = 0;
        while i < self.netdevs.len()
            invariant
                i <= self.netdevs@.len(),
                args@.map_values(|a: String| a@) == before_netdevs + netdev_args(
                    self.netdevs@.take(i as int),
                ),
            decreases self.netdevs@.len() - i,
        {
            assert(self.netdevs@.take(i + 1).drop_last() =~= self.netdevs@.take(i as int));
            push_literal(&mut args, "-netdev");
            push_string(&mut args, self.netdevs[i].to_qemu_value());
            i += 1;
            assert(args@.map_values(|a: String| a@) =~= before_netdevs + netdev_args(
                self.netdevs@.take(i as int),
            ));
        }
        assert(self.netdevs@.take(i as int) =~= self.netdevs@);
        let ghost before_devices = args@.map_values(|a: String| a@);
        let mut i: usize = 0;
        while i < self.devices.len()
            invariant
                i <= self.devices@.len(),
                args@.map_values(|a: String| a@) == before_devices + device_args(
                    self.devices@.take(i as int),
                ),
            decreases self.devices@.len() - i,
        {
            assert(self.devices@.take(i + 1).drop_last() =~= self.devices@.take(i as int));
            push_literal(&mut args, "-device");
            push_string(&mut args, self.devices[i].to_qemu_value());
            i += 1;
            assert(args@.map_values(|a: String| a@) =~= before_devices + device_args(
                self.devices@.take(i as int),
            ));
        }
        assert(self.devices@.take(i as int) =~= self.devices@);
        assert(args@.map_values(|a: String| a@) =~= qemu_args_of(*self));
        args
    }

    /// The platform configuration of the VM: the TDX Q35 platform with its
    /// processor count, the optional features from the machine properties
    /// (or, where a property is missing, from the devices), and its PCI
    /// devices sorted by devfn.
    pub fn platform_config(&self) -> (c: PlatformConfig)
        requires
            props_ordered(*self),
            pci_configs(self.devices@).len() <= 255,
        ensures
            c.is_tdx_q35_base(self.cpu.topology.cpus),
            c.has_hpet == or_default(prop_bool(self.machine.properties.values@, "hpet"@), false),
            c.has_vmgenid == any_driver_contains(self.devices@, "vmgenid"@),
            c.has_mcfg == or_default(prop_bool(self.machine.properties.values@, "mcfg"@), true),
            c.has_numa == or_default(prop_bool(self.machine.properties.values@, "numa"@), false),
            c.has_slit == or_default(
                prop_bool(self.machine.properties.values@, "slit"@),
                c.has_numa,
            ),
            c.has_hmat == or_default(prop_bool(self.machine.properties.values@, "hmat"@), false),
            c.tpm_kind == or_else(
                match prop_string(self.machine.properties.values@, "tpm"@) {
                    Some(s) => tpm_kind_of(s@),
                    None => None,
                },
                first_device_tpm(self.devices@),
            ),
            c.iommu_kind == or_else(
                match prop_string(self.machine.properties.values@, "iommu"@) {
                    Some(s) => iommu_kind_of(s@),
                    None => None,
                },
                first_device_iommu(self.devices@),
            ),
            c.nvdimm_enabled == or_default(
                prop_bool(self.machine.properties.values@, "nvdimm"@),
                any_driver_contains(self.devices@, "nvdimm"@),
            ),
            c.cxl_enabled == or_default(
                prop_bool(self.machine.properties.values@, "cxl"@),
                any_driver_contains(self.devices@, "cxl"@),
            ),
            c.pci_devices@ == sorted_by_devfn(pci_configs(self.devices@)),
    {
        let mut config = PlatformConfig::intel_tdx_q35(self.cpu.topology.cpus);
        let props = &self.machine.properties;
        config.has_hpet = bool_or(props, "hpet", false);
        config.has_vmgenid = any_driver_contains_exec(&self.devices, "vmgenid");
        config.has_mcfg = bool_or(props, "mcfg", true);
        config.has_numa = bool_or(props, "numa", false);
        config.has_slit = bool_or(props, "slit", config.has_numa);
        config.has_hmat = bool_or(props, "hmat", false);
        config.tpm_kind = match props.tpm_kind() {
            Some(k) => Some(k),
            None => first_tpm(&self.devices),
        };
        config.iommu_kind = match props.iommu_kind() {
            Some(k) => Some(k),
            None => first_iommu(&self.devices),
        };
        config.nvdimm_enabled = match props.bool("nvdimm") {
            Some(v) => v,
            None => any_driver_contains_exec(&self.devices, "nvdimm"),
        };
        config.cxl_enabled = match props.bool("cxl") {
            Some(v) => v,
            None => any_driver_contains_exec(&self.devices, "cxl"),
        };
        let mut pci_devices: Vec<PciDeviceConfig> = Vec::new();
        let mut i: usize = 0;
        proof {
            lemma_pci_configs_prefix_len(self.devices@, 0);
        }
        while i < self.devices.len()
            invariant
                i <= self.devices@.len(),
                pci_configs(self.devices@).len() <= 255,
                pci_devices@ == pci_configs(self.devices@.take(i as int)),
            decreases self.devices@.len() - i,
        {
            let device = &self.devices[i];
            assert(self.devices@.take(i + 1).drop_last() =~= self.devices@.take(i as int));
            proof {
                lemma_pci_configs_prefix_len(self.devices@, i + 1);
            }
            if str_ends_with(device.driver.as_str(), "-pci") {
                let index = pci_devices.len();
                let devfn = match device.devfn() {
                    Some(v) => v,
                    None => default_devfn(index),
                };
                pci_devices.push(
                    PciDeviceConfig {
                        driver: device.driver.clone(),
                        id: device.string_prop("id"),
                        bus: device.string_prop("bus"),
                        devfn,
                    },
                );
            }
            i += 1;
        }
        assert(self.devices@.take(i as int) =~= self.devices@);
        config.pci_devices = sort_by_devfn(pci_devices);
        config
    }
}

proof fn lemma_pci_configs_prefix_len(devices: Seq<Device>, i: int)
    requires
        0 <= i <= devices.len(),
    ensures
        pci_configs(devices.take(i)).len() <= pci_configs(devices).len(),
    decreases devices.len() - i,
{
    if i < devices.len() {
        lemma_pci_configs_prefix_len(devices, i + 1);
        assert(devices.take(i + 1).drop_last() =~= devices.take(i));
    } else {
        assert(devices.take(i) =~= devices);
    }
}

// ---------------------------------------------------------------------
// Printing the command line.
// ---------------------------------------------------------------------

/// Whether an argument is an option: it starts with a dash.
pub open spec fn is_option(a: Seq<char>) -> bool {
    a.len() > 0 && a[0] == '-'
}

/// An argument in double quotes.
pub open spec fn quoted(a: Seq<char>) -> Seq<char> {
    seq!['"'] + a + seq!['"']
}

/// One line per option with its value (when the next argument is not an
/// option itself), or per lone argument, each argument in quotes.
pub open spec fn format_lines(args: Seq<Seq<char>>) -> Seq<Seq<char>>
    decreases args.len(),
{
    if args.len() == 0 {
        Seq::empty()
    } else if is_option(args[0]) && args.len() > 1 && !is_option(args[1]) {
        seq![quoted(args[0]) + seq![' '] + quoted(args[1])] + format_lines(args.skip(2))
    } else {
        seq![quoted(args[0])] + format_lines(args.skip(1))
    }
}

/// Arguments that are all options, or all plain values, get a line each:
/// no option takes another option as its value, and no value is taken
/// without an option before it.
#[verifier::spinoff_prover]
pub proof fn lemma_format_lone_args(args: Seq<Seq<char>>)
    requires
        (forall|i: int| 0 <= i < args.len() ==> is_option(#[trigger] args[i])) || (forall|i: int|
            0 <= i < args.len() ==> !is_option(#[trigger] args[i])),
    ensures
        format_lines(args).len() == args.len(),
        forall|i: int|
            0 <= i < args.len() ==> #[trigger] format_lines(args)[i] == seq!['"'] + args[i]
                + seq!['"'],
    decreases args.len(),
{
    if args.len() > 0 {
        let rest = args.skip(1);
        assert forall|i: int| 0 <= i < rest.len() implies rest[i] == args[i + 1] by {}
        if forall|i: int| 0 <= i < args.len() ==> is_option(#[trigger] args[i]) {
            assert(forall|i: int| 0 <= i < rest.len() ==> is_option(#[trigger] rest[i])) by {
                assert forall|i: int| 0 <= i < rest.len() implies is_option(#[trigger] rest[i]) by {
                    assert(rest[i] == args[i + 1]);
                }
            }
            if args.len() > 1 {
                assert(is_option(args[1]));
            }
        } else {
            assert(forall|i: int| 0 <= i < rest.len() ==> !is_option(#[trigger] rest[i])) by {
                assert forall|i: int| 0 <= i < rest.len() implies !is_option(#[trigger] rest[i]) by {
                    assert(rest[i] == args[i + 1]);
                }
            }
            assert(!is_option(args[0]));
        }
        lemma_format_lone_args(rest);
        assert forall|i: int| 0 <= i < args.len() implies #[trigger] format_lines(args)[i]
            == seq!['"'] + args[i] + seq!['"'] by {
            if i > 0 {
                assert(format_lines(args)[i] == format_lines(rest)[i - 1]);
                assert(rest[i - 1] == args[i]);
            }
        }
    }
}

/// Arguments that alternate option, value, option, value get one line per
/// pair: the quoted option, a space, the quoted value.
#[verifier::spinoff_prover]
pub proof fn lemma_format_pairs(args: Seq<Seq<char>>)
    requires
        args.len() % 2 == 0,
        forall|k: int|
            0 <= k < args.len() / 2 ==> is_option(#[trigger] args[2 * k]) && !is_option(
                args[2 * k + 1],
            ),
    ensures
        format_lines(args).len() == args.len() / 2,
        forall|k: int|
            0 <= k < args.len() / 2 ==> #[trigger] format_lines(args)[k] == seq!['"'] + args[2 * k]
                + seq!['"'] + seq![' '] + seq!['"'] + args[2 * k + 1] + seq!['"'],
    decreases args.len(),
{
    if args.len() > 0 {
        let rest = args.skip(2);
        assert(is_option(args[2 * 0int]) && !is_option(args[2 * 0int + 1]));
        assert forall|k: int| 0 <= k < rest.len() / 2 implies is_option(#[trigger] rest[2 * k])
            && !is_option(rest[2 * k + 1]) by {
            assert(rest[2 * k] == args[2 * (k + 1)]);
            assert(rest[2 * k + 1] == args[2 * (k + 1) + 1]);
        }
        lemma_format_pairs(rest);
        assert forall|k: int| 0 <= k < args.len() / 2 implies #[trigger] format_lines(args)[k]
            == seq!['"'] + args[2 * k] + seq!['"'] + seq![' '] + seq!['"'] + args[2 * k + 1]
            + seq!['"'] by {
            if k > 0 {
                assert(format_lines(args)[k] == format_lines(rest)[k - 1]);
                assert(rest[2 * (k - 1)] == args[2 * k]);
                assert(rest[2 * (k - 1) + 1] == args[2 * k + 1]);
            } else {
                assert(format_lines(args)[0] =~= seq!['"'] + args[0] + seq!['"'] + seq![' ']
                    + seq!['"'] + args[1] + seq!['"']);
            }
        }
    }
}

fn starts_with_dash(a: &String) -> (r: bool)
    ensures
        r == is_option(a@),
{
    let s = a.as_str();
    !s.is_empty() && s.get_char(0) == '-'
}

fn append_quoted(line: &mut String, a: &String)
    ensures
        final(line)@ == old(line)@ + quoted(a@),
{
    push_char(line, '"');
    line.append(a.as_str());
    push_char(line, '"');
    assert(final(line)@ =~= old(line)@ + quoted(a@));
}

/// Formats QEMU arguments for printing, one option and its value per line.
pub fn format_qemu_args(args: &[String]) -> (lines: Vec<String>)
    ensures
        lines@.map_values(|l: String| l@) == format_lines(args@.map_values(|a: String| a@)),
{
    let ghost all = args@.map_values(|a: String| a@);
    let mut lines: Vec<String> = Vec::new();
    let mut index: usize = 0;
    assert(all.skip(0) =~= all);
    while index < args.len()
        invariant
            index <= args@.len(),
            all == args@.map_values(|a: String| a@),
            lines@.map_values(|l: String| l@) + format_lines(all.skip(index as int)) == format_lines(
                all,
            ),
        decreases args@.len() - index,
    {
        let ghost rest = all.skip(index as int);
        let ghost before = lines@.map_values(|l: String| l@);
        let current = &args[index];
        let mut line = String::new();
        if starts_with_dash(current) && index + 1 < args.len() && !starts_with_dash(&args[index + 1]) {
            append_quoted(&mut line, current);
            push_char(&mut line, ' ');
            append_quoted(&mut line, &args[index + 1]);
            let ghost l = line@;
            lines.push(line);
            assert(rest.skip(2) =~= all.skip(index + 2));
            assert(l =~= quoted(rest[0]) + seq![' '] + quoted(rest[1]));
            index += 2;
            assert(lines@.map_values(|l: String| l@) =~= before.push(l));
            assert(before.push(l) + format_lines(all.skip(index as int)) =~= before + format_lines(rest));
        } else {
            append_quoted(&mut line, current);
            let ghost l = line@;
            lines.push(line);
            assert(rest.skip(1) =~= all.skip(index + 1));
            assert(l =~= quoted(rest[0]));
            index += 1;
            assert(lines@.map_values(|l: String| l@) =~= before.push(l));
            assert(before.push(l) + format_lines(all.skip(index as int)) =~= before + format_lines(rest));
        }
    }
    assert(all.skip(index as int) =~= Seq::<Seq<char>>::empty());
    assert(lines@.map_values(|l: String| l@) =~= lines@.map_values(|l: String| l@) + format_lines(
        Seq::<Seq<char>>::empty(),
    ));
    lines
}

/// Whether `s` is in nondecreasing devfn order.
pub open spec fn devfn_sorted(s: Seq<PciDeviceConfig>) -> bool {
    forall|i: int, j: int| 0 <= i <= j < s.len() ==> s[i].devfn <= s[j].devfn
}

proof fn lemma_insert_pos(r: Seq<PciDeviceConfig>, d: u8)
    requires
        devfn_sorted(r),
    ensures
        insert_pos(r, d) <= r.len(),
        forall|k: int| 0 <= k < insert_pos(r, d) ==> r[k].devfn <= d,
        forall|k: int| insert_pos(r, d) <= k < r.len() ==> r[k].devfn > d,
    decreases r.len(),
{
    if r.len() > 0 {
        if r.last().devfn <= d {
            assert forall|k: int| 0 <= k < insert_pos(r, d) implies r[k].devfn <= d by {
                assert(r[k].devfn <= r[r.len() - 1].devfn);
            }
        } else {
            let r0 = r.drop_last();
            assert forall|i: int, j: int| 0 <= i <= j < r0.len() implies r0[i].devfn
                <= r0[j].devfn by {
                assert(r0[i] == r[i] && r0[j] == r[j]);
            }
            lemma_insert_pos(r0, d);
            assert(insert_pos(r, d) == insert_pos(r0, d));
            assert forall|k: int| 0 <= k < insert_pos(r, d) implies r[k].devfn <= d by {
                assert(r0[k] == r[k]);
            }
            assert forall|k: int| insert_pos(r, d) <= k < r.len() implies r[k].devfn > d by {
                if k < r0.len() {
                    assert(r0[k] == r[k]);
                }
            }
        }
    }
}

/// Sorting by devfn keeps every device (as a multiset) and puts them in
/// nondecreasing devfn order.
pub proof fn lemma_sorted_by_devfn(s: Seq<PciDeviceConfig>)
    ensures
        sorted_by_devfn(s).len() == s.len(),
        sorted_by_devfn(s).to_multiset() == s.to_multiset(),
        devfn_sorted(sorted_by_devfn(s)),
    decreases s.len(),
{
    broadcast use vstd::seq_lib::to_multiset_build, vstd::seq_lib::to_multiset_insert;

    if s.len() == 0 {
        assert(sorted_by_devfn(s) =~= s);
    } else {
        let s0 = s.drop_last();
        let x = s.last();
        lemma_sorted_by_devfn(s0);
        let r = sorted_by_devfn(s0);
        lemma_insert_pos(r, x.devfn);
        let p = insert_pos(r, x.devfn) as int;
        let out = r.insert(p, x);
        assert(out == sorted_by_devfn(s));
        assert(s0.push(x) =~= s);
        assert forall|i: int, j: int| 0 <= i <= j < out.len() implies out[i].devfn <= out[j].devfn by {
            if i < p && j < p {
            } else if i < p && j == p {
            } else if i < p {
                assert(out[j] == r[j - 1]);
            } else if i == p && j == p {
            } else if i == p {
                assert(out[j] == r[j - 1]);
            } else {
                assert(out[i] == r[i - 1]);
                assert(out[j] == r[j - 1]);
            }
        }
    }
}


/// Whether a device has devfn `d`.
pub open spec fn with_devfn(d: u8) -> spec_fn(PciDeviceConfig) -> bool {
    |x: PciDeviceConfig| x.devfn == d
}

proof fn lemma_filter_none(s: Seq<PciDeviceConfig>, d: u8)
    requires
        forall|k: int| 0 <= k < s.len() ==> (#[trigger] s[k]).devfn != d,
    ensures
        s.filter(with_devfn(d)) == Seq::<PciDeviceConfig>::empty(),
    decreases s.len(),
{
    reveal(Seq::filter);
    if s.len() > 0 {
        let s0 = s.drop_last();
        assert forall|k: int| 0 <= k < s0.len() implies (#[trigger] s0[k]).devfn != d by {
            assert(s0[k] == s[k]);
        }
        lemma_filter_none(s0, d);
        assert(!with_devfn(d)(s.last()));
    }
}

/// Sorting by devfn is stable: the devices that share a devfn come out in
/// the order they went in.
pub proof fn lemma_sorted_by_devfn_stable(s: Seq<PciDeviceConfig>, d: u8)
    ensures
        sorted_by_devfn(s).filter(with_devfn(d)) == s.filter(with_devfn(d)),
    decreases s.len(),
{
    if s.len() > 0 {
        let s0 = s.drop_last();
        let x = s.last();
        let pred = with_devfn(d);
        lemma_sorted_by_devfn_stable(s0, d);
        lemma_sorted_by_devfn(s0);
        let r = sorted_by_devfn(s0);
        lemma_insert_pos(r, x.devfn);
        let p = insert_pos(r, x.devfn) as int;
        let front = r.take(p);
        let back = r.skip(p);
        assert(r =~= front + back);
        assert(r.insert(p, x) =~= front + seq![x] + back);
        Seq::filter_distributes_over_add(front, back, pred);
        Seq::filter_distributes_over_add(front + seq![x], back, pred);
        Seq::filter_distributes_over_add(front, seq![x], pred);
        assert(seq![x].drop_last() =~= Seq::<PciDeviceConfig>::empty());
        assert(s0.push(x) =~= s);
        assert(s.filter(pred) == if pred(x) {
            s0.filter(pred).push(x)
        } else {
            s0.filter(pred)
        }) by {
            reveal(Seq::filter);
        }
        assert(seq![x].filter(pred) == if pred(x) {
            seq![x]
        } else {
            Seq::<PciDeviceConfig>::empty()
        }) by {
            reveal(Seq::filter);
            assert(Seq::<PciDeviceConfig>::empty().filter(pred) =~= Seq::<PciDeviceConfig>::empty());
            assert(Seq::<PciDeviceConfig>::empty().push(x) =~= seq![x]);
        }
        if x.devfn == d {
            assert forall|k: int| 0 <= k < back.len() implies (#[trigger] back[k]).devfn != d by {
                assert(back[k] == r[p + k]);
            }
            lemma_filter_none(back, d);
            assert(r.filter(pred) =~= front.filter(pred));
            assert(sorted_by_devfn(s).filter(pred) =~= front.filter(pred).push(x));
        } else {
            assert(seq![x].filter(pred) =~= Seq::<PciDeviceConfig>::empty());
            assert(sorted_by_devfn(s).filter(pred) =~= r.filter(pred));
        }
    }
}

} // verus!
