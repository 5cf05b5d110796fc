//! The wireless configuration and the UCI text it is written as.

use vstd::prelude::*;
use crate::text::push_char;

verus! {

pub struct WifiRadioConfig {
    pub path: String,
    pub channel: String,
    pub band: String,
    pub htmode: String,
    pub disabled: bool,
}

pub struct WifiInterfaceConfig {
    pub device: String,
    pub network: String,
    pub mode: String,
    pub ssid: String,
    pub encryption: String,
    pub key: String,
}

pub struct WifiConfig {
    pub radio0: Option<WifiRadioConfig>,
    pub radio1: Option<WifiRadioConfig>,
    pub interfaces: Vec<WifiInterfaceConfig>,
}

impl Default for WifiConfig {
    fn default() -> (r: WifiConfig)
        ensures
            r.radio0.is_none(),
            r.radio1.is_none(),
            r.interfaces@.len() == 0,
    {
        WifiConfig { radio0: None, radio1: None, interfaces: Vec::new() }
    }
}

/// Decimal text of `n`, without leading zeros.
pub open spec fn decimal_text(n: nat) -> Seq<char>
    decreases n,
{
    if n < 10 {
        seq![crate::text::digit_char(n as int)]
    } else {
        decimal_text(n / 10) + seq![crate::text::digit_char((n % 10) as int)]
    }
}

/// Appends the decimal text of `n`.
pub fn push_decimal(s: &mut String, n: u64)
    ensures
        final(s)@ == old(s)@ + decimal_text(n as nat),
    decreases n,
{
    if n >= 10 {
        push_decimal(s, n / 10);
    }
    let d = (n % 10) as u8;
    push_char(s, digit_of(d));
    proof {
        if n < 10 {
            assert(final(s)@ =~= old(s)@ + decimal_text(n as nat));
        } else {
            assert(final(s)@ =~= old(s)@ + decimal_text(n as nat));
        }
    }
}

fn digit_of(d: u8) -> (c: char)
    requires
        d < 10,
    ensures
        c == crate::text::digit_char(d as int),
{
    if d == 0 {
        '0'
    } else if d == 1 {
        '1'
    } else if d == 2 {
        '2'
    } else if d == 3 {
        '3'
    } else if d == 4 {
        '4'
    } else if d == 5 {
        '5'
    } else if d == 6 {
        '6'
    } else if d == 7 {
        '7'
    } else if d == 8 {
        '8'
    } else {
        '9'
    }
}

/// `\toption <name> '<value>'` and a line break.
pub open spec fn option_line(name: Seq<char>, value: Seq<char>) -> Seq<char> {
    "\toption "@ + name + " '"@ + value + "'\n"@
}

/// The `wifi-device` section of a radio.
pub open spec fn radio_text(name: Seq<char>, r: WifiRadioConfig) -> Seq<char> {
    "config wifi-device '"@ + name + "'\n"@ + option_line("type"@, "mac80211"@) + option_line(
        "path"@,
        r.path@,
    ) + option_line("channel"@, r.channel@) + option_line("band"@, r.band@) + option_line(
        "htmode"@,
        r.htmode@,
    ) + option_line("disabled"@, if r.disabled { "1"@ } else { "0"@ }) + "\n"@
}

/// The `wifi-iface` section of the interface at position `idx`.
pub open spec fn iface_text(idx: nat, i: WifiInterfaceConfig) -> Seq<char> {
    "config wifi-iface 'default_"@ + i.device@ + "_"@ + decimal_text(idx) + "'\n"@ + option_line(
        "device"@,
        i.device@,
    ) + option_line("network"@, i.network@) + option_line("mode"@, i.mode@) + option_line(
        "ssid"@,
        i.ssid@,
    ) + option_line("encryption"@, i.encryption@) + option_line("key"@, i.key@) + "\n"@
}

pub open spec fn ifaces_text(v: Seq<WifiInterfaceConfig>) -> Seq<char>
    decreases v.len(),
{
    if v.len() == 0 {
        Seq::empty()
    } else {
        ifaces_text(v.drop_last()) + iface_text((v.len() - 1) as nat, v.last())
    }
}

pub open spec fn uci_text(c: WifiConfig) -> Seq<char> {
    (match c.radio0 {
        Some(r) => radio_text("radio0"@, r),
        None => Seq::empty(),
    }) + (match c.radio1 {
        Some(r) => radio_text("radio1"@, r),
        None => Seq::empty(),
    }) + ifaces_text(c.interfaces@)
}

/// Writes UCI configuration text.
pub struct UciGenerator;

impl UciGenerator {
    /// The wireless UCI file: a `wifi-device` section per configured radio,
    /// then a `wifi-iface` section per interface.
    pub fn generate(config: &WifiConfig) -> (r: String)
        ensures
            r@ == uci_text(*config),
    {
        let mut out = String::new();
        if let Some(radio) = &config.radio0 {
            Self::write_radio(&mut out, "radio0", radio);
        }
        if let Some(radio) = &config.radio1 {
            Self::write_radio(&mut out, "radio1", radio);
        }
        let ghost head = out@;
        let mut idx: usize = 0;
        while idx < config.interfaces.len()
            invariant
                idx <= config.interfaces@.len(),
                out@ == head + ifaces_text(config.interfaces@.subrange(0, idx as int)),
            decreases config.interfaces@.len() - idx,
        {
            proof {
                let sub = config.interfaces@.subrange(0, idx + 1);
                assert(sub.drop_last() =~= config.interfaces@.subrange(0, idx as int));
                assert(sub.last() == config.interfaces@[idx as int]);
            }
            Self::write_iface(&mut out, idx, &config.interfaces[idx]);
            proof {
                assert(out@ =~= head + ifaces_text(config.interfaces@.subrange(0, idx + 1)));
            }
            idx = idx + 1;
        }
        proof {
            assert(config.interfaces@.subrange(0, config.interfaces@.len() as int) =~= config.interfaces@);
            assert(out@ =~= uci_text(*config));
        }
        out
    }

    fn write_option(out: &mut String, name: &str, value: &str)
        ensures
            final(out)@ == old(out)@ + option_line(name@, value@),
    {
        out.append("\toption ");
        out.append(name);
        out.append(" '");
        out.append(value);
        out.append("'\n");
        assert(final(out)@ =~= old(out)@ + option_line(name@, value@));
    }

    fn write_radio(out: &mut String, name: &str, radio: &WifiRadioConfig)
        ensures
            final(out)@ == old(out)@ + radio_text(name@, *radio),
    {
        out.append("config wifi-device '");
        out.append(name);
        out.append("'\n");
        Self::write_option(out, "type", "mac80211");
        Self::write_option(out, "path", radio.path.as_str());
        Self::write_option(out, "channel", radio.channel.as_str());
        Self::write_option(out, "band", radio.band.as_str());
        Self::write_option(out, "htmode", radio.htmode.as_str());
        if radio.disabled {
            Self::write_option(out, "disabled", "1");
        } else {
            Self::write_option(out, "disabled", "0");
        }
        out.append("\n");
        assert(final(out)@ =~= old(out)@ + radio_text(name@, *radio));
    }

    fn write_iface(out: &mut String, idx: usize, iface: &WifiInterfaceConfig)
        ensures
            final(out)@ == old(out)@ + iface_text(idx as nat, *iface),
    {
        out.append("config wifi-iface 'default_");
        out.append(iface.device.as_str());
        out.append("_");
        push_decimal(out, idx as u64);
        out.append("'\n");
        Self::write_option(out, "device", iface.device.as_str());
        Self::write_option(out, "network", iface.network.as_str());
        Self::write_option(out, "mode", iface.mode.as_str());
        Self::write_option(out, "ssid", iface.ssid.as_str());
        Self::write_option(out, "encryption", iface.encryption.as_str());
        Self::write_option(out, "key", iface.key.as_str());
        out.append("\n");
        assert(final(out)@ =~= old(out)@ + iface_text(idx as nat, *iface));
    }
}

/// Applies wireless settings; the writing of the file and the reload are
/// the caller's.
pub struct WifiManager;

impl WifiManager {
    pub fn new() -> (r: WifiManager) {
        WifiManager
    }

    /// The text to write to the wireless configuration file.
    pub fn config_text(&self, config: &WifiConfig) -> (r: String)
        ensures
            r@ == uci_text(*config),
    {
        UciGenerator::generate(config)
    }
}

} // verus!
