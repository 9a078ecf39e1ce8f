//! Aquacomputer control reports: the feature report that sets every channel
//! of a Quadro or D5 Next to a fixed duty, closed by a CRC-16/USB checksum.

use vstd::prelude::*;

use crate::checksum::{crc16_usb, crc16_usb_checksum};
use crate::text::same_text;

verus! {

/// Aquacomputer USB vendor ID.
pub const AQC_VID: u16 = 0x0C70;

/// Report ID of the control feature report (its first byte).
pub const CONTROL_REPORT_ID: u8 = 0x03;

/// Channel mode byte that selects fixed-percent operation.
pub const MODE_FIXED_PERCENT: u8 = 0x00;

/// The layout of one device's control report.
pub struct DeviceDescriptor {
    pub pid: u16,
    /// Total length of the feature report buffer (including the report-ID byte).
    pub ctrl_report_len: usize,
    /// (channel-name, base-offset) pairs, in the order they are written.
    pub channels: Vec<(&'static str, usize)>,
}

impl DeviceDescriptor {
    /// The report is long enough for its ID byte and checksum, and every
    /// channel's three bytes (mode, duty high, duty low) lie inside it.
    pub open spec fn fits(&self) -> bool {
        &&& self.ctrl_report_len >= 3
        &&& forall|i: int|
            0 <= i < self.channels@.len() ==> #[trigger] self.channels@[i].1 + 3
                <= self.ctrl_report_len
    }

    /// Every channel lies strictly between the ID byte and the checksum, and
    /// no two channels share a byte.
    pub open spec fn separated(&self) -> bool {
        &&& self.fits()
        &&& forall|i: int|
            0 <= i < self.channels@.len() ==> 1 <= #[trigger] self.channels@[i].1 && self.channels@[i].1
                + 3 <= self.ctrl_report_len - 2
        &&& forall|i: int, j: int|
            0 <= i < j < self.channels@.len() ==> regions_disjoint(
                #[trigger] self.channels@[i].1 as int,
                #[trigger] self.channels@[j].1 as int,
            )
    }
}

impl DeviceDescriptor {
    /// Whether the report is long enough for its ID byte and checksum and
    /// every channel's three bytes lie inside it (what building a report
    /// needs).
    pub fn report_fits(&self) -> (b: bool)
        ensures
            b == self.fits(),
    {
        if self.ctrl_report_len < 3 {
            return false;
        }
        let mut i: usize = 0;
        while i < self.channels.len()
            invariant
                i <= self.channels@.len(),
                forall|k: int| 0 <= k < i ==> #[trigger] self.channels@[k].1 + 3 <= self.ctrl_report_len,
            decreases self.channels@.len() - i,
        {
            let base = self.channels[i].1;
            if base > self.ctrl_report_len || self.ctrl_report_len - base < 3 {
                return false;
            }
            i = i + 1;
        }
        true
    }
}

/// Two three-byte channel regions that start at `a` and `b` share no byte.
pub open spec fn regions_disjoint(a: int, b: int) -> bool {
    a + 3 <= b || b + 3 <= a
}

/// The Aquacomputer Quadro: four fan channels in a 961-byte report.
pub fn quadro() -> (d: DeviceDescriptor)
    ensures
        d.pid == 0xF00D,
        d.ctrl_report_len == 0x3C1,
        d.channels@ == seq![("fan1", 0x36usize), ("fan2", 0x8Busize), ("fan3", 0xE0usize), ("fan4", 0x135usize)],
        d.separated(),
{
    let d = DeviceDescriptor {
        pid: 0xF00D,
        ctrl_report_len: 0x3C1,
        channels: vec![("fan1", 0x36), ("fan2", 0x8B), ("fan3", 0xE0), ("fan4", 0x135)],
    };
    assert(d.channels@ == seq![("fan1", 0x36usize), ("fan2", 0x8Busize), ("fan3", 0xE0usize), ("fan4", 0x135usize)]);
    d
}

/// The Aquacomputer D5 Next: a fan channel and a pump channel in an 809-byte
/// report.
pub fn d5next() -> (d: DeviceDescriptor)
    ensures
        d.pid == 0xF00E,
        d.ctrl_report_len == 0x329,
        d.channels@ == seq![("fan", 0x41usize), ("pump", 0x96usize)],
        d.separated(),
{
    let d = DeviceDescriptor {
        pid: 0xF00E,
        ctrl_report_len: 0x329,
        channels: vec![("fan", 0x41), ("pump", 0x96)],
    };
    assert(d.channels@ == seq![("fan", 0x41usize), ("pump", 0x96usize)]);
    d
}

/// The duty requested for channel `name`: the duty of the first entry of
/// `speeds` with that name, or `fallback` when no entry names it.
pub open spec fn duty_for<'a>(speeds: Seq<(&'a str, u8)>, name: Seq<char>, fallback: u8) -> u8
    decreases speeds.len(),
{
    if speeds.len() == 0 {
        fallback
    } else if speeds[0].0@ == name {
        speeds[0].1
    } else {
        duty_for(speeds.drop_first(), name, fallback)
    }
}

/// The raw speed value sent for a duty: hundredths of a percent.
pub open spec fn raw_speed(duty: u8) -> int {
    duty * 100
}

/// Byte `off` (0, 1 or 2) of a channel region set to `duty`: the
/// fixed-percent mode byte, then the raw speed big-endian.
pub open spec fn channel_byte(duty: u8, off: int) -> u8 {
    if off == 0 {
        MODE_FIXED_PERCENT
    } else if off == 1 {
        (raw_speed(duty) / 256) as u8
    } else {
        (raw_speed(duty) % 256) as u8
    }
}

/// The two speed bytes of a channel read back, big-endian, as the raw speed
/// of its duty, which always fits in sixteen bits.
pub proof fn lemma_channel_bytes_decode(duty: u8)
    ensures
        0 <= raw_speed(duty) <= 25500,
        channel_byte(duty, 1) as int * 256 + channel_byte(duty, 2) as int == raw_speed(duty),
{
}

/// `buf` with the channel region at `base` set to `duty`.
pub open spec fn write_channel(buf: Seq<u8>, base: int, duty: u8) -> Seq<u8> {
    buf.update(base, channel_byte(duty, 0)).update(base + 1, channel_byte(duty, 1)).update(
        base + 2,
        channel_byte(duty, 2),
    )
}

/// `buf` with every channel of `channels` written in order, each at the
/// duty that `speeds` requests for it.
pub open spec fn write_channels<'a>(
    buf: Seq<u8>,
    channels: Seq<(&'static str, usize)>,
    speeds: Seq<(&'a str, u8)>,
    fallback: u8,
) -> Seq<u8>
    decreases channels.len(),
{
    if channels.len() == 0 {
        buf
    } else {
        let last = channels.last();
        write_channel(
            write_channels(buf, channels.drop_last(), speeds, fallback),
            last.1 as int,
            duty_for(speeds, last.0@, fallback),
        )
    }
}

/// A zeroed buffer of `len` bytes that starts with the control report ID.
pub open spec fn blank_report(len: nat) -> Seq<u8> {
    Seq::new(len, |i: int| if i == 0 { CONTROL_REPORT_ID } else { 0u8 })
}

/// The report before its checksum: the blank report with every channel of
/// the device written.
pub open spec fn report_body<'a>(desc: DeviceDescriptor, speeds: Seq<(&'a str, u8)>, fallback: u8) -> Seq<u8> {
    write_channels(blank_report(desc.ctrl_report_len as nat), desc.channels@, speeds, fallback)
}

/// The complete control report: the body, with its last two bytes replaced
/// by the big-endian CRC-16/USB of bytes `1 .. len - 2` of the body.
pub open spec fn control_report_spec<'a>(desc: DeviceDescriptor, speeds: Seq<(&'a str, u8)>, fallback: u8) -> Seq<u8> {
    let len = desc.ctrl_report_len as int;
    let body = report_body(desc, speeds, fallback);
    let sum = crc16_usb(body.subrange(1, len - 2));
    body.update(len - 2, (sum / 256) as u8).update(len - 1, (sum % 256) as u8)
}

/// The trailer of `report` is the big-endian CRC-16/USB of every byte
/// between the report ID and the trailer.
pub open spec fn checksum_valid(report: Seq<u8>) -> bool {
    &&& report.len() >= 3
    &&& {
        let sum = crc16_usb(report.subrange(1, report.len() - 2));
        report[report.len() - 2] == (sum / 256) as u8 && report[report.len() - 1] == (sum
            % 256) as u8
    }
}

/// The duty that `speeds` requests for channel `name`, `fallback` if none.
pub fn requested_duty(speeds: &[(&str, u8)], name: &str, fallback: u8) -> (duty: u8)
    ensures
        duty == duty_for(speeds@, name@, fallback),
        forall|j: int|
            0 <= j < speeds@.len() && (#[trigger] speeds@[j]).0@ == name@ && (forall|k: int|
                0 <= k < j ==> (#[trigger] speeds@[k]).0@ != name@) ==> duty == speeds@[j].1,
        (forall|j: int| 0 <= j < speeds@.len() ==> (#[trigger] speeds@[j]).0@ != name@) ==> duty
            == fallback,
{
    proof {
        lemma_duty_for_first_match(speeds@, name@, fallback);
    }
    let ghost first_match = duty_for(speeds@, name@, fallback);
    let mut j: usize = 0;
    assert(speeds@.skip(0) =~= speeds@);
    while j < speeds.len()
        invariant
            j <= speeds@.len(),
            duty_for(speeds@, name@, fallback) == duty_for(speeds@.skip(j as int), name@, fallback),
            first_match == duty_for(speeds@, name@, fallback),
            forall|i: int|
                0 <= i < speeds@.len() && (#[trigger] speeds@[i]).0@ == name@ && (forall|k: int|
                    0 <= k < i ==> (#[trigger] speeds@[k]).0@ != name@) ==> first_match == speeds@[i].1,
            (forall|i: int| 0 <= i < speeds@.len() ==> (#[trigger] speeds@[i]).0@ != name@)
                ==> first_match == fallback,
        decreases speeds@.len() - j,
    {
        let (n, d) = speeds[j];
        if same_text(n, name) {
            return d;
        }
        assert(speeds@.skip(j as int).drop_first() =~= speeds@.skip(j + 1));
        j = j + 1;
    }
    assert(speeds@.skip(j as int).len() == 0);
    fallback
}

/// Writing channels one after another: each region of a separated layout
/// holds its own channel's bytes, and every other byte is unchanged.
proof fn lemma_write_channels_separated<'a>(
    buf: Seq<u8>,
    channels: Seq<(&'static str, usize)>,
    speeds: Seq<(&'a str, u8)>,
    fallback: u8,
)
    requires
        forall|i: int| 0 <= i < channels.len() ==> #[trigger] channels[i].1 + 3 <= buf.len(),
        forall|i: int, j: int|
            0 <= i < j < channels.len() ==> regions_disjoint(
                #[trigger] channels[i].1 as int,
                #[trigger] channels[j].1 as int,
            ),
    ensures
        write_channels(buf, channels, speeds, fallback).len() == buf.len(),
        forall|i: int, x: int|
            0 <= i < channels.len() && channels[i].1 <= x < channels[i].1 + 3 ==> #[trigger] write_channels(
                buf,
                channels,
                speeds,
                fallback,
            )[x] == channel_byte(
                duty_for(speeds, #[trigger] channels[i].0@, fallback),
                x - channels[i].1,
            ),
        forall|x: int|
            0 <= x < buf.len() && (forall|i: int|
                0 <= i < channels.len() ==> !(channels[i].1 <= x < #[trigger] channels[i].1 + 3))
                ==> #[trigger] write_channels(buf, channels, speeds, fallback)[x] == buf[x],
    decreases channels.len(),
{
    if channels.len() > 0 {
        let init = channels.drop_last();
        lemma_write_channels_separated(buf, init, speeds, fallback);
        let k = channels.len() - 1;
        assert forall|i: int| 0 <= i < init.len() implies regions_disjoint(
            #[trigger] init[i].1 as int,
            channels[k].1 as int,
        ) by {
            assert(init[i] == channels[i]);
        }
        assert forall|i: int| 0 <= i < init.len() implies #[trigger] init[i] == channels[i] by {}
        let prev = write_channels(buf, init, speeds, fallback);
        let all = write_channels(buf, channels, speeds, fallback);
        assert(all == write_channel(prev, channels[k].1 as int, duty_for(speeds, channels[k].0@, fallback)));
        assert forall|i: int, x: int|
            0 <= i < channels.len() && channels[i].1 <= x < channels[i].1 + 3 implies #[trigger] all[x]
                == channel_byte(duty_for(speeds, #[trigger] channels[i].0@, fallback), x - channels[i].1) by {
            if i < k {
                assert(init[i] == channels[i]);
                assert(regions_disjoint(channels[i].1 as int, channels[k].1 as int));
                assert(prev[x] == channel_byte(duty_for(speeds, init[i].0@, fallback), x - init[i].1));
            }
        }
        assert forall|x: int|
            0 <= x < buf.len() && (forall|i: int|
                0 <= i < channels.len() ==> !(channels[i].1 <= x < #[trigger] channels[i].1 + 3))
                implies #[trigger] all[x] == buf[x] by {
            assert(!(channels[k].1 <= x < channels[k].1 + 3));
            assert forall|i: int| 0 <= i < init.len() implies !(init[i].1 <= x < #[trigger] init[i].1 + 3) by {
                assert(init[i] == channels[i]);
                assert(!(channels[i].1 <= x < channels[i].1 + 3));
            }
        }
    }
}

/// The three bytes of the channel region at `base` of `report` set `duty`.
pub open spec fn region_encodes(report: Seq<u8>, base: int, duty: u8) -> bool {
    forall|off: int| 0 <= off < 3 ==> #[trigger] report[base + off] == channel_byte(duty, off)
}

/// Byte `x` of the report body lies in no channel region of `desc`.
pub open spec fn outside_channels(desc: DeviceDescriptor, x: int) -> bool {
    forall|i: int|
        0 <= i < desc.channels@.len() ==> !(desc.channels@[i].1 <= x < #[trigger] desc.channels@[i].1
            + 3)
}

/// The layout of a control report for a separated descriptor: the report ID
/// first, each channel region holding the duty requested for that channel,
/// zero in every other byte before the checksum, and a valid checksum.
pub proof fn lemma_report_layout<'a>(desc: DeviceDescriptor, speeds: Seq<(&'a str, u8)>, fallback: u8)
    requires
        desc.separated(),
    ensures
        control_report_spec(desc, speeds, fallback).len() == desc.ctrl_report_len,
        control_report_spec(desc, speeds, fallback)[0] == CONTROL_REPORT_ID,
        forall|i: int|
            0 <= i < desc.channels@.len() ==> region_encodes(
                control_report_spec(desc, speeds, fallback),
                #[trigger] desc.channels@[i].1 as int,
                duty_for(speeds, desc.channels@[i].0@, fallback),
            ),
        forall|x: int|
            1 <= x < desc.ctrl_report_len - 2 && outside_channels(desc, x)
                ==> #[trigger] control_report_spec(desc, speeds, fallback)[x] == 0,
        checksum_valid(control_report_spec(desc, speeds, fallback)),
{
    let len = desc.ctrl_report_len as int;
    let chans = desc.channels@;
    let blank = blank_report(len as nat);
    let body = report_body(desc, speeds, fallback);
    let report = control_report_spec(desc, speeds, fallback);
    lemma_write_channels_separated(blank, chans, speeds, fallback);
    assert(report.subrange(1, len - 2) =~= body.subrange(1, len - 2));
    if chans.len() > 0 {
        assert(!(chans[0].1 <= 0 < chans[0].1 + 3));
    }
    assert forall|i: int| 0 <= i < chans.len() implies region_encodes(
        report,
        #[trigger] chans[i].1 as int,
        duty_for(speeds, chans[i].0@, fallback),
    ) by {
        assert forall|off: int| 0 <= off < 3 implies #[trigger] report[chans[i].1 + off]
            == channel_byte(duty_for(speeds, chans[i].0@, fallback), off) by {
            assert(body[chans[i].1 + off] == channel_byte(
                duty_for(speeds, chans[i].0@, fallback),
                chans[i].1 + off - chans[i].1,
            ));
        }
    }
    assert forall|x: int| 1 <= x < len - 2 && outside_channels(desc, x) implies #[trigger] report[x]
        == 0 by {
        assert(blank[x] == 0);
    }
}

/// The duty requested for `name` is that of the first entry of `speeds`
/// naming it, or `fallback` when no entry names it.
pub proof fn lemma_duty_for_first_match<'a>(speeds: Seq<(&'a str, u8)>, name: Seq<char>, fallback: u8)
    ensures
        forall|j: int|
            0 <= j < speeds.len() && (#[trigger] speeds[j]).0@ == name && (forall|k: int|
                0 <= k < j ==> (#[trigger] speeds[k]).0@ != name) ==> duty_for(speeds, name, fallback)
                == speeds[j].1,
        (forall|j: int| 0 <= j < speeds.len() ==> (#[trigger] speeds[j]).0@ != name) ==> duty_for(
            speeds,
            name,
            fallback,
        ) == fallback,
    decreases speeds.len(),
{
    if speeds.len() > 0 {
        let rest = speeds.drop_first();
        lemma_duty_for_first_match(rest, name, fallback);
        assert forall|j: int|
            0 <= j < speeds.len() && (#[trigger] speeds[j]).0@ == name && (forall|k: int|
                0 <= k < j ==> (#[trigger] speeds[k]).0@ != name) implies duty_for(speeds, name, fallback)
            == speeds[j].1 by {
            if j > 0 {
                assert(speeds[0].0@ != name);
                assert(rest[j - 1] == speeds[j]);
                assert forall|k: int| 0 <= k < j - 1 implies (#[trigger] rest[k]).0@ != name by {
                    assert(rest[k] == speeds[k + 1]);
                }
            }
        }
        if forall|j: int| 0 <= j < speeds.len() ==> (#[trigger] speeds[j]).0@ != name {
            assert(speeds[0].0@ != name);
            assert forall|j: int| 0 <= j < rest.len() implies (#[trigger] rest[j]).0@ != name by {
                assert(rest[j] == speeds[j + 1]);
            }
        }
    }
}

/// In the report for a separated layout, every channel is in fixed-percent
/// mode (mode byte 0) and its two speed bytes read back big-endian as exactly
/// 100 times the duty requested for it: the duty of the first entry of
/// `speeds` naming the channel, or `fallback` when no entry names it.
pub proof fn lemma_report_speed_bytes<'a>(desc: DeviceDescriptor, speeds: Seq<(&'a str, u8)>, fallback: u8)
    requires
        desc.separated(),
    ensures
        forall|i: int|
            0 <= i < desc.channels@.len() ==> control_report_spec(desc, speeds, fallback)[(
            #[trigger] desc.channels@[i]).1 as int] == 0u8,
        forall|i: int, j: int|
            #![trigger desc.channels@[i], speeds[j]]
            0 <= i < desc.channels@.len() && 0 <= j < speeds.len() && speeds[j].0@
                == desc.channels@[i].0@ && (forall|k: int|
                0 <= k < j ==> (#[trigger] speeds[k]).0@ != desc.channels@[i].0@) ==> control_report_spec(
                desc,
                speeds,
                fallback,
            )[desc.channels@[i].1 + 1] as int * 256 + control_report_spec(desc, speeds, fallback)[
            desc.channels@[i].1 + 2] as int == speeds[j].1 as int * 100,
        forall|i: int|
            0 <= i < desc.channels@.len() && (forall|j: int|
                0 <= j < speeds.len() ==> (#[trigger] speeds[j]).0@ != (
                #[trigger] desc.channels@[i]).0@) ==> control_report_spec(desc, speeds, fallback)[
            desc.channels@[i].1 + 1] as int * 256 + control_report_spec(desc, speeds, fallback)[
            desc.channels@[i].1 + 2] as int == fallback as int * 100,
{
    let report = control_report_spec(desc, speeds, fallback);
    let chans = desc.channels@;
    lemma_report_layout(desc, speeds, fallback);
    assert forall|i: int| 0 <= i < chans.len() implies report[(#[trigger] chans[i]).1 as int]
        == 0u8 by {
        assert(region_encodes(report, chans[i].1 as int, duty_for(speeds, chans[i].0@, fallback)));
        assert(report[chans[i].1 + 0] == channel_byte(duty_for(speeds, chans[i].0@, fallback), 0));
    }
    assert forall|i: int| 0 <= i < chans.len() implies report[(#[trigger] chans[i]).1 + 1] as int
        * 256 + report[chans[i].1 + 2] as int == duty_for(speeds, chans[i].0@, fallback) as int
        * 100 by {
        let d = duty_for(speeds, chans[i].0@, fallback);
        assert(region_encodes(report, chans[i].1 as int, d));
        assert(report[chans[i].1 + 1] == channel_byte(d, 1));
        assert(report[chans[i].1 + 2] == channel_byte(d, 2));
        lemma_channel_bytes_decode(d);
    }
    assert forall|i: int, j: int|
        #![trigger chans[i], speeds[j]]
        0 <= i < chans.len() && 0 <= j < speeds.len() && speeds[j].0@ == chans[i].0@ && (forall|k: int|
            0 <= k < j ==> (#[trigger] speeds[k]).0@ != chans[i].0@) implies report[chans[i].1 + 1] as int
        * 256 + report[chans[i].1 + 2] as int == speeds[j].1 as int * 100 by {
        lemma_duty_for_first_match(speeds, chans[i].0@, fallback);
    }
    assert forall|i: int|
        0 <= i < chans.len() && (forall|j: int|
            0 <= j < speeds.len() ==> (#[trigger] speeds[j]).0@ != (#[trigger] chans[i]).0@) implies report[
    chans[i].1 + 1] as int * 256 + report[chans[i].1 + 2] as int == fallback as int * 100 by {
        lemma_duty_for_first_match(speeds, chans[i].0@, fallback);
    }
}

/// Closes a report body with its checksum: the last two bytes become `sum`,
/// big-endian; every other byte is kept.
pub fn seal_report(body: Vec<u8>, sum: u16) -> (report: Vec<u8>)
    requires
        body@.len() >= 2,
    ensures
        report@ == body@.update(body@.len() - 2, (sum / 256) as u8).update(
            body@.len() - 1,
            (sum % 256) as u8,
        ),
{
    let mut report = body;
    let len = report.len();
    report.set(len - 2, (sum / 256) as u8);
    report.set(len - 1, (sum % 256) as u8);
    report
}

/// Builds the control report that sets every channel of `desc` to fixed
/// percent: the duty of a channel named in `speeds` (first match), or
/// `fallback_pct` for a channel it does not name. The raw speed is the duty
/// times 100, big-endian after a zero mode byte; the last two bytes are the
/// big-endian CRC-16/USB of the bytes between the report ID and them.
pub fn control_report(desc: &DeviceDescriptor, speeds: &[(&str, u8)], fallback_pct: u8) -> (report: Vec<u8>)
    requires
        desc.fits(),
    ensures
        report@ == control_report_spec(*desc, speeds@, fallback_pct),
        report@.len() == desc.ctrl_report_len,
        checksum_valid(report@),
        report@[desc.ctrl_report_len - 2] as int * 256 + report@[desc.ctrl_report_len - 1] as int
            == crc16_usb(report@.subrange(1, desc.ctrl_report_len - 2)) as int,
        desc.separated() ==> report@[0] == CONTROL_REPORT_ID,
        desc.separated() ==> report@[0] == 0x03u8,
        desc.separated() ==> forall|i: int|
            0 <= i < desc.channels@.len() ==> region_encodes(
                report@,
                #[trigger] desc.channels@[i].1 as int,
                duty_for(speeds@, desc.channels@[i].0@, fallback_pct),
            ),
        desc.separated() ==> forall|x: int|
            1 <= x < desc.ctrl_report_len - 2 && outside_channels(*desc, x) ==> #[trigger] report@[x]
                == 0,
        desc.separated() ==> forall|i: int, j: int|
            #![trigger desc.channels@[i], speeds@[j]]
            0 <= i < desc.channels@.len() && 0 <= j < speeds@.len() && speeds@[j].0@
                == desc.channels@[i].0@ && (forall|k: int|
                0 <= k < j ==> (#[trigger] speeds@[k]).0@ != desc.channels@[i].0@) ==> report@[
            desc.channels@[i].1 as int] == 0u8 && report@[desc.channels@[i].1 + 1] as int * 256
                + report@[desc.channels@[i].1 + 2] as int == speeds@[j].1 as int * 100,
        desc.separated() ==> forall|i: int|
            0 <= i < desc.channels@.len() && (forall|j: int|
                0 <= j < speeds@.len() ==> (#[trigger] speeds@[j]).0@ != (
                #[trigger] desc.channels@[i]).0@) ==> report@[desc.channels@[i].1 as int] == 0u8
                && report@[desc.channels@[i].1 + 1] as int * 256 + report@[desc.channels@[i].1
                + 2] as int == fallback_pct as int * 100,
{
    let len = desc.ctrl_report_len;
    let mut buf: Vec<u8> = vec![0u8; len];
    buf.set(0, CONTROL_REPORT_ID);
    let ghost blank = blank_report(len as nat);
    assert(buf@ =~= blank);
    let ghost chans = desc.channels@;
    let mut i: usize = 0;
    while i < desc.channels.len()
        invariant
            desc.fits(),
            len == desc.ctrl_report_len,
            chans == desc.channels@,
            i <= chans.len(),
            buf@ == write_channels(blank, chans.take(i as int), speeds@, fallback_pct),
            buf@.len() == len,
        decreases chans.len() - i,
    {
        let (name, base) = desc.channels[i];
        assert(chans[i as int].1 + 3 <= len);
        let duty = requested_duty(speeds, name, fallback_pct);
        let raw: u16 = (duty as u16) * 100;
        buf.set(base, MODE_FIXED_PERCENT);
        buf.set(base + 1, (raw / 256) as u8);
        buf.set(base + 2, (raw % 256) as u8);
        assert(chans.take(i + 1).drop_last() =~= chans.take(i as int));
        assert(chans.take(i + 1).last() == chans[i as int]);
        assert(buf@ =~= write_channels(blank, chans.take(i + 1), speeds@, fallback_pct));
        i = i + 1;
    }
    assert(chans.take(i as int) =~= chans);
    let ghost body = buf@;
    let sum = crc16_usb_checksum(&buf[1..len - 2]);
    let report = seal_report(buf, sum);
    proof {
        assert(report@.subrange(1, len - 2) =~= body.subrange(1, len - 2));
        assert((sum / 256) as u8 as int * 256 + (sum % 256) as u8 as int == sum as int);
        if desc.separated() {
            lemma_report_layout(*desc, speeds@, fallback_pct);
            lemma_report_speed_bytes(*desc, speeds@, fallback_pct);
        }
    }
    report
}

} // verus!
