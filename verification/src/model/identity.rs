//! Stable display identity, used to key persisted settings and profiles.

use crate::text;
use vstd::prelude::*;

verus! {

/// What tells one display from another.
#[derive(Debug, PartialEq, Eq, Hash)]
pub struct DisplayIdentity {
    /// EDID manufacturer ID, e.g. "AUS".
    pub vendor: String,
    pub product_name: String,
    pub serial: i64,
    pub alphanumeric_serial: String,
    /// IOKit registry path of the framebuffer. Reflects the physical port.
    pub location: String,
}

impl Default for DisplayIdentity {
    fn default() -> (d: DisplayIdentity)
        ensures
            d.vendor@.len() == 0,
            d.product_name@.len() == 0,
            d.serial == 0,
            d.alphanumeric_serial@.len() == 0,
            d.location@.len() == 0,
    {
        DisplayIdentity {
            vendor: String::new(),
            product_name: String::new(),
            serial: 0,
            alphanumeric_serial: String::new(),
            location: String::new(),
        }
    }
}

impl Clone for DisplayIdentity {
    fn clone(&self) -> (d: DisplayIdentity)
        ensures
            d == *self,
    {
        DisplayIdentity {
            vendor: self.vendor.clone(),
            product_name: self.product_name.clone(),
            serial: self.serial,
            alphanumeric_serial: self.alphanumeric_serial.clone(),
            location: self.location.clone(),
        }
    }
}

/// Serials that monitors report instead of an actual serial number.
///
/// A vendor that ships one placeholder ships it on every unit, so two identical
/// monitors would be indistinguishable by serial.
pub open spec fn placeholder(serial: i64) -> bool {
    ||| serial == 0
    ||| serial == 0x0101_0101
    ||| serial == 0x0000_0001
    ||| serial == 0xFFFF_FFFF
}

/// Whether the four low bytes of a serial are all the same: a filler pattern,
/// not a real serial.
pub open spec fn filler(serial: i64) -> bool {
    let low = (serial as int) % 0x1_0000_0000;
    exists|b: int| 0 <= b < 256 && low == #[trigger] (b * 0x0101_0101)
}

/// Whether `serial` distinguishes one unit from another of the same model.
pub open spec fn trustworthy(serial: i64) -> bool {
    !placeholder(serial) && !filler(serial)
}

/// The key under which settings of a display are kept.
pub open spec fn key_of(d: DisplayIdentity) -> Seq<char> {
    if trustworthy(d.serial) {
        d.vendor@ + ":"@ + d.product_name@ + ":"@ + text::signed_decimal(d.serial as int)
    } else if d.alphanumeric_serial@.len() > 0 {
        d.vendor@ + ":"@ + d.product_name@ + ":alnum:"@ + d.alphanumeric_serial@
    } else {
        d.vendor@ + ":"@ + d.product_name@ + ":loc:"@ + d.location@
    }
}

/// What a display is called.
pub open spec fn title_of(d: DisplayIdentity) -> Seq<char> {
    if d.product_name@.len() == 0 {
        d.vendor@ + " (unnamed)"@
    } else {
        d.vendor@ + " "@ + d.product_name@
    }
}

impl DisplayIdentity {
    /// Whether `serial` distinguishes this unit from another of the same model.
    ///
    /// False for placeholders, so callers must fall back to physical location.
    pub fn has_trustworthy_serial(&self) -> (b: bool)
        ensures
            b == trustworthy(self.serial),
    {
        let s: i64 = self.serial;
        if s == 0 || s == 0x0101_0101 || s == 0x0000_0001 || s == 0xFFFF_FFFF {
            return false;
        }
        let low: i128 = ((s as i128) + 0x1_0000_0000_0000_0000) % 0x1_0000_0000;
        assert(low == (s as int) % 0x1_0000_0000);
        let repeats: bool = low % 0x0101_0101 == 0;
        proof {
            if repeats {
                let b = low as int / 0x0101_0101;
                assert(low == b * 0x0101_0101);
                assert(0 <= b < 256);
            } else if filler(s) {
                let b = choose|b: int| 0 <= b < 256 && low == #[trigger] (b * 0x0101_0101);
                assert((b * 0x0101_0101) % 0x0101_0101 == 0);
            }
        }
        !repeats
    }

    /// Key for persisting per-monitor settings.
    ///
    /// Prefers the serial, but falls back to physical location when the serial
    /// is a placeholder: settings then follow the *port* rather than the panel,
    /// which is the best available behaviour for such hardware.
    pub fn settings_key(&self) -> (r: String)
        ensures
            r@ == key_of(*self),
    {
        let mut out = text::between(self.vendor.as_str(), ":", self.product_name.as_str());
        if self.has_trustworthy_serial() {
            out.append(":");
            out.append(text::write_signed(self.serial).as_str());
        } else if !text::empty(self.alphanumeric_serial.as_str()) {
            out.append(":alnum:");
            out.append(self.alphanumeric_serial.as_str());
        } else {
            out.append(":loc:");
            out.append(self.location.as_str());
        }
        out
    }

    /// What the display is called: vendor and product name.
    pub fn describe(&self) -> (r: String)
        ensures
            r@ == title_of(*self),
    {
        if text::empty(self.product_name.as_str()) {
            text::after(self.vendor.as_str(), " (unnamed)")
        } else {
            text::between(self.vendor.as_str(), " ", self.product_name.as_str())
        }
    }
}

// ── Laws ───────────────────────────────────────────────────────────────────

/// Two units that no serial tells apart are told apart by their ports.
pub proof fn law_ports_tell_units_apart(a: DisplayIdentity, b: DisplayIdentity)
    requires
        a.vendor@ == b.vendor@,
        a.product_name@ == b.product_name@,
        !trustworthy(a.serial),
        !trustworthy(b.serial),
        a.alphanumeric_serial@.len() == 0,
        b.alphanumeric_serial@.len() == 0,
        a.location@ != b.location@,
    ensures
        key_of(a) != key_of(b),
{
    let head = a.vendor@ + ":"@ + a.product_name@ + ":loc:"@;
    let n = head.len() as int;
    if key_of(a) == key_of(b) {
        assert(key_of(a).skip(n) =~= a.location@);
        assert(key_of(b).skip(n) =~= b.location@);
    }
}

/// Where the serial is trusted, settings follow the unit from port to port.
pub proof fn law_trusted_serial_follows_the_unit(a: DisplayIdentity, b: DisplayIdentity)
    requires
        a.vendor@ == b.vendor@,
        a.product_name@ == b.product_name@,
        a.serial == b.serial,
        trustworthy(a.serial),
    ensures
        key_of(a) == key_of(b),
{
}

/// Where the serial is no good and there is no alphanumeric one, settings follow
/// the port, whatever serial stands there.
pub proof fn law_untrusted_serial_is_not_used(a: DisplayIdentity, b: DisplayIdentity)
    requires
        a.vendor@ == b.vendor@,
        a.product_name@ == b.product_name@,
        !trustworthy(a.serial),
        !trustworthy(b.serial),
        a.alphanumeric_serial@ == b.alphanumeric_serial@,
        a.location@ == b.location@,
    ensures
        key_of(a) == key_of(b),
{
}

/// A serial is trusted exactly where it could tell two units apart: it is not one,
/// and its four low bytes are not all the same, which zero, all ones and the usual
/// filler are.
pub proof fn law_fillers_are_not_trusted(serial: i64, a: int, b: int, c: int, d: int)
    requires
        0 <= a < 256,
        0 <= b < 256,
        0 <= c < 256,
        0 <= d < 256,
        (serial as int) % 0x1_0000_0000 == a * 0x100_0000 + b * 0x1_0000 + c * 0x100 + d,
    ensures
        trustworthy(serial) == !(serial == 1 || (a == b && b == c && c == d)),
{
    let low = (serial as int) % 0x1_0000_0000;
    if a == b && b == c && c == d {
        assert(low == a * 0x0101_0101);
        assert(filler(serial));
    }
    if filler(serial) {
        let n = choose|n: int| 0 <= n < 256 && low == #[trigger] (n * 0x0101_0101);
        assert(n * 0x100_0000 + n * 0x1_0000 + n * 0x100 + n == a * 0x100_0000 + b * 0x1_0000 + c
            * 0x100 + d);
        assert(n == a && n == b && n == c && n == d);
    }
    if serial == 0 {
        assert(a == 0 && b == 0 && c == 0 && d == 0);
    }
    if serial == 0x0101_0101 {
        assert(a == 1 && b == 1 && c == 1 && d == 1);
    }
    if serial == 0xFFFF_FFFF {
        assert(a == 255 && b == 255 && c == 255 && d == 255);
    }
}

/// Two units of a model whose serials are trusted and differ have keys of their own,
/// and so have two that differ in their alphanumeric serials where those count.
pub proof fn law_serials_tell_units_apart(a: DisplayIdentity, b: DisplayIdentity)
    requires
        a.vendor@ == b.vendor@,
        a.product_name@ == b.product_name@,
    ensures
        trustworthy(a.serial) && trustworthy(b.serial) && a.serial != b.serial ==> key_of(a)
            != key_of(b),
        !trustworthy(a.serial) && !trustworthy(b.serial) && a.alphanumeric_serial@.len() > 0
            && b.alphanumeric_serial@.len() > 0 && a.alphanumeric_serial@ != b.alphanumeric_serial@
            ==> key_of(a) != key_of(b),
        key_of(a).len() >= a.vendor@.len() + 1 + a.product_name@.len(),
        key_of(a).take(a.vendor@.len() + 1 + a.product_name@.len() as int) == a.vendor@ + ":"@
            + a.product_name@,
{
    reveal_strlit(":");
    let head = a.vendor@ + ":"@ + a.product_name@;
    let n = head.len() as int;
    if trustworthy(a.serial) && trustworthy(b.serial) {
        let x = text::signed_decimal(a.serial as int);
        let y = text::signed_decimal(b.serial as int);
        if key_of(a) == key_of(b) {
            assert(key_of(a).skip(n + 1) =~= x);
            assert(key_of(b).skip(n + 1) =~= y);
            let p = if a.serial < 0 {
                -(a.serial as int)
            } else {
                a.serial as int
            };
            let q = if b.serial < 0 {
                -(b.serial as int)
            } else {
                b.serial as int
            };
            text::lemma_decimal_reads_back(p as nat);
            text::lemma_decimal_reads_back(q as nat);
            if a.serial < 0 {
                assert(x[0] == '-');
                assert(x.drop_first() =~= text::decimal(p as nat));
            } else {
                assert('0' <= x[0] <= '9');
            }
            if b.serial < 0 {
                assert(y[0] == '-');
                assert(y.drop_first() =~= text::decimal(q as nat));
            } else {
                assert('0' <= y[0] <= '9');
            }
        }
    }
    if !trustworthy(a.serial) && !trustworthy(b.serial) && a.alphanumeric_serial@.len() > 0
        && b.alphanumeric_serial@.len() > 0 {
        reveal_strlit(":alnum:");
        if key_of(a) == key_of(b) {
            assert(key_of(a).skip(n + 7) =~= a.alphanumeric_serial@);
            assert(key_of(b).skip(n + 7) =~= b.alphanumeric_serial@);
        }
    }
    assert(key_of(a).take(n) =~= head);
}

/// A display is called by its maker and its product, or said to have no name.
pub proof fn law_displays_are_called_by_their_names(d: DisplayIdentity)
    ensures
        d.product_name@.len() > 0 ==> title_of(d) == d.vendor@ + " "@ + d.product_name@,
        d.product_name@.len() == 0 ==> title_of(d) == d.vendor@ + " (unnamed)"@,
{
}

} // verus!
