//! Which duty each fan and pump channel is driven at in one control cycle:
//! the duties derived from the temperature sources, with full duty standing
//! in for every source that could not be read.

use vstd::prelude::*;
use vstd::string::*;

use crate::aquacomputer::{
    DeviceDescriptor,
    control_report_spec,
    duty_for,
    lemma_report_layout,
    region_encodes,
};

verus! {

/// Full duty: what every channel runs at when its source is unavailable,
/// when the device knows a channel that routing does not drive, and in an
/// emergency.
pub const FULL_DUTY: u8 = 100;

/// A computed duty, or full duty when there is none.
pub open spec fn duty_or_full(duty: Option<u8>) -> u8 {
    match duty {
        Some(d) => d,
        None => FULL_DUTY,
    }
}

/// Quadro routing: radiator fans 1 and 2 follow the coolant-derived duty,
/// fan 3 the motherboard/NIC-derived duty.
pub open spec fn quadro_plan(radiator: Option<u8>, motherboard: Option<u8>) -> Seq<(&'static str, u8)> {
    seq![
        ("fan1", duty_or_full(radiator)),
        ("fan2", duty_or_full(radiator)),
        ("fan3", duty_or_full(motherboard)),
    ]
}

/// D5 Next routing: the pump follows the duty derived from the hotter of CPU
/// and GPU.
pub open spec fn d5next_plan(pump: Option<u8>) -> Seq<(&'static str, u8)> {
    seq![("pump", duty_or_full(pump))]
}

/// Each channel follows its own source: when a source gives a duty, every
/// channel routed to it is requested at exactly that duty (fans 1 and 2 at
/// the radiator duty, fan 3 at the motherboard duty, the pump at the pump
/// duty); only an unavailable source puts its channels at 100%.
pub proof fn lemma_routing_follows_sources(radiator: Option<u8>, motherboard: Option<u8>, pump: Option<u8>)
    ensures
        quadro_plan(radiator, motherboard).len() == 3,
        quadro_plan(radiator, motherboard)[0].0 == "fan1",
        quadro_plan(radiator, motherboard)[1].0 == "fan2",
        quadro_plan(radiator, motherboard)[2].0 == "fan3",
        d5next_plan(pump).len() == 1,
        d5next_plan(pump)[0].0 == "pump",
        forall|d: u8|
            radiator == Some(d) ==> quadro_plan(radiator, motherboard)[0].1 == d && quadro_plan(
                radiator,
                motherboard,
            )[1].1 == d,
        forall|d: u8| motherboard == Some(d) ==> quadro_plan(radiator, motherboard)[2].1 == d,
        forall|d: u8| pump == Some(d) ==> d5next_plan(pump)[0].1 == d,
        radiator is None ==> quadro_plan(radiator, motherboard)[0].1 == 100u8 && quadro_plan(
            radiator,
            motherboard,
        )[1].1 == 100u8,
        motherboard is None ==> quadro_plan(radiator, motherboard)[2].1 == 100u8,
        pump is None ==> d5next_plan(pump)[0].1 == 100u8,
{
}

/// The speeds requested from the Quadro for a radiator duty and a
/// motherboard-fan duty, `None` meaning that the source was unavailable.
pub fn quadro_speeds(radiator: Option<u8>, motherboard: Option<u8>) -> (speeds: Vec<(&'static str, u8)>)
    ensures
        speeds@ == quadro_plan(radiator, motherboard),
        speeds@.len() == 3,
        speeds@[0].0 == "fan1" && speeds@[1].0 == "fan2" && speeds@[2].0 == "fan3",
        match radiator {
            Some(d) => speeds@[0].1 == d && speeds@[1].1 == d,
            None => speeds@[0].1 == 100u8 && speeds@[1].1 == 100u8,
        },
        match motherboard {
            Some(d) => speeds@[2].1 == d,
            None => speeds@[2].1 == 100u8,
        },
{
    proof {
        lemma_routing_follows_sources(radiator, motherboard, None);
    }
    let r = match radiator {
        Some(d) => d,
        None => FULL_DUTY,
    };
    let m = match motherboard {
        Some(d) => d,
        None => FULL_DUTY,
    };
    let speeds = vec![("fan1", r), ("fan2", r), ("fan3", m)];
    assert(speeds@ == quadro_plan(radiator, motherboard));
    speeds
}

/// The speeds requested from the D5 Next for a pump duty, `None` meaning
/// that the CPU or GPU temperature was unavailable.
pub fn d5next_speeds(pump: Option<u8>) -> (speeds: Vec<(&'static str, u8)>)
    ensures
        speeds@ == d5next_plan(pump),
        speeds@.len() == 1,
        speeds@[0].0 == "pump",
        match pump {
            Some(d) => speeds@[0].1 == d,
            None => speeds@[0].1 == 100u8,
        },
{
    proof {
        lemma_routing_follows_sources(None, None, pump);
    }
    let p = match pump {
        Some(d) => d,
        None => FULL_DUTY,
    };
    let speeds = vec![("pump", p)];
    assert(speeds@ == d5next_plan(pump));
    speeds
}

/// The warning line for a temperature source that could not be read.
pub open spec fn fault_line(sensor: Seq<char>, impact: Seq<char>) -> Seq<char> {
    sensor + " temperature unavailable \u{2014} "@ + impact
}

/// The warning for `sensor` if it is unavailable, nothing otherwise.
pub open spec fn fault_if(available: bool, sensor: Seq<char>, impact: Seq<char>) -> Seq<Seq<char>> {
    if available {
        Seq::empty()
    } else {
        seq![fault_line(sensor, impact)]
    }
}

/// The warnings for the unavailable sources, in the order CPU, GPU,
/// coolant, motherboard.
pub open spec fn fault_lines(cpu: bool, gpu: bool, coolant: bool, motherboard: bool) -> Seq<Seq<char>> {
    fault_if(cpu, "CPU"@, "fans/pump defaulting to 100%"@) + fault_if(
        gpu,
        "GPU"@,
        "pump defaulting to 100%"@,
    ) + fault_if(coolant, "Coolant"@, "radiator fans defaulting to 100%"@) + fault_if(
        motherboard,
        "Motherboard"@,
        "motherboard fan defaulting to 100%"@,
    )
}

/// One warning per unavailable source and none for an available one: each
/// source's warning is present exactly when that source is unavailable.
pub proof fn lemma_fault_lines_name_unavailable(cpu: bool, gpu: bool, coolant: bool, motherboard: bool)
    ensures
        fault_lines(cpu, gpu, coolant, motherboard).len() == (if cpu { 0int } else { 1int }) + (if gpu {
            0int
        } else {
            1int
        }) + (if coolant { 0int } else { 1int }) + (if motherboard { 0int } else { 1int }),
        !cpu <==> fault_lines(cpu, gpu, coolant, motherboard).contains(
            "CPU"@ + " temperature unavailable \u{2014} "@ + "fans/pump defaulting to 100%"@,
        ),
        !gpu <==> fault_lines(cpu, gpu, coolant, motherboard).contains(
            "GPU"@ + " temperature unavailable \u{2014} "@ + "pump defaulting to 100%"@,
        ),
        !coolant <==> fault_lines(cpu, gpu, coolant, motherboard).contains(
            "Coolant"@ + " temperature unavailable \u{2014} "@ + "radiator fans defaulting to 100%"@,
        ),
        !motherboard <==> fault_lines(cpu, gpu, coolant, motherboard).contains(
            "Motherboard"@ + " temperature unavailable \u{2014} "@
                + "motherboard fan defaulting to 100%"@,
        ),
        !cpu ==> fault_lines(cpu, gpu, coolant, motherboard)[0] == "CPU"@
            + " temperature unavailable \u{2014} "@ + "fans/pump defaulting to 100%"@,
        !motherboard ==> fault_lines(cpu, gpu, coolant, motherboard).last() == "Motherboard"@
            + " temperature unavailable \u{2014} "@ + "motherboard fan defaulting to 100%"@,
{
    reveal_strlit("CPU");
    reveal_strlit("GPU");
    reveal_strlit("Coolant");
    reveal_strlit("Motherboard");
    let mid = " temperature unavailable \u{2014} "@;
    let c = "CPU"@ + mid + "fans/pump defaulting to 100%"@;
    let g = "GPU"@ + mid + "pump defaulting to 100%"@;
    let o = "Coolant"@ + mid + "radiator fans defaulting to 100%"@;
    let m = "Motherboard"@ + mid + "motherboard fan defaulting to 100%"@;
    assert(c[0] == 'C' && c[1] == 'P');
    assert(g[0] == 'G');
    assert(o[0] == 'C' && o[1] == 'o');
    assert(m[0] == 'M');
    let fc = fault_if(cpu, "CPU"@, "fans/pump defaulting to 100%"@);
    let fg = fault_if(gpu, "GPU"@, "pump defaulting to 100%"@);
    let fo = fault_if(coolant, "Coolant"@, "radiator fans defaulting to 100%"@);
    let fm = fault_if(motherboard, "Motherboard"@, "motherboard fan defaulting to 100%"@);
    let all = fault_lines(cpu, gpu, coolant, motherboard);
    assert(all == fc + fg + fo + fm);
    assert(fc.len() <= 1 && fg.len() <= 1 && fo.len() <= 1 && fm.len() <= 1);
    assert forall|x: Seq<char>| #[trigger] all.contains(x) <==> (fc.contains(x) || fg.contains(x)
        || fo.contains(x) || fm.contains(x)) by {
        if all.contains(x) {
            let j = choose|j: int| 0 <= j < all.len() && all[j] == x;
            if j < fc.len() {
                assert(fc[j] == x);
            } else if j < fc.len() + fg.len() {
                assert(fg[j - fc.len()] == x);
            } else if j < fc.len() + fg.len() + fo.len() {
                assert(fo[j - fc.len() - fg.len()] == x);
            } else {
                assert(fm[j - fc.len() - fg.len() - fo.len()] == x);
            }
        }
        if fc.contains(x) {
            assert(all[0] == x);
        }
        if fg.contains(x) {
            assert(all[fc.len() as int] == x);
        }
        if fo.contains(x) {
            assert(all[(fc.len() + fg.len()) as int] == x);
        }
        if fm.contains(x) {
            assert(all[(fc.len() + fg.len() + fo.len()) as int] == x);
        }
    }
    if !cpu {
        assert(fc[0] == c);
    }
    if !gpu {
        assert(fg[0] == g);
    }
    if !coolant {
        assert(fo[0] == o);
    }
    if !motherboard {
        assert(fm[0] == m);
        assert(all.last() == fm[0]);
    }
    if !cpu {
        assert(all[0] == fc[0]);
    }
}

fn fault_message(sensor: &str, impact: &str) -> (line: String)
    ensures
        line@ == fault_line(sensor@, impact@),
{
    let mut line = String::from_str(sensor);
    line.append(" temperature unavailable \u{2014} ");
    line.append(impact);
    line
}

/// The warning to raise for each temperature source that is unavailable
/// (each flag says whether its source was read).
pub fn sensor_fault_messages(cpu: bool, gpu: bool, coolant: bool, motherboard: bool) -> (lines: Vec<String>)
    ensures
        lines@.map_values(|l: String| l@) == fault_lines(cpu, gpu, coolant, motherboard),
        lines@.len() == (if cpu { 0int } else { 1int }) + (if gpu { 0int } else { 1int }) + (if coolant {
            0int
        } else {
            1int
        }) + (if motherboard { 0int } else { 1int }),
{
    proof {
        lemma_fault_lines_name_unavailable(cpu, gpu, coolant, motherboard);
    }
    let mut lines: Vec<String> = Vec::new();
    if !cpu {
        lines.push(fault_message("CPU", "fans/pump defaulting to 100%"));
    }
    assert(lines@.map_values(|l: String| l@) =~= fault_if(cpu, "CPU"@, "fans/pump defaulting to 100%"@));
    let ghost a = lines@.map_values(|l: String| l@);
    if !gpu {
        lines.push(fault_message("GPU", "pump defaulting to 100%"));
    }
    assert(lines@.map_values(|l: String| l@) =~= a + fault_if(gpu, "GPU"@, "pump defaulting to 100%"@));
    let ghost b = lines@.map_values(|l: String| l@);
    if !coolant {
        lines.push(fault_message("Coolant", "radiator fans defaulting to 100%"));
    }
    assert(lines@.map_values(|l: String| l@) =~= b + fault_if(coolant, "Coolant"@, "radiator fans defaulting to 100%"@));
    let ghost c = lines@.map_values(|l: String| l@);
    if !motherboard {
        lines.push(fault_message("Motherboard", "motherboard fan defaulting to 100%"));
    }
    assert(lines@.map_values(|l: String| l@) =~= c + fault_if(motherboard, "Motherboard"@, "motherboard fan defaulting to 100%"@));
    lines
}

/// Quadro routing as it reaches the device: every channel named `fan1` or
/// `fan2` is set to the radiator duty, `fan3` to the motherboard duty, and
/// every other channel of the device to full duty; an unavailable source
/// therefore leaves its channels at full duty.
pub proof fn lemma_quadro_routing(desc: DeviceDescriptor, radiator: Option<u8>, motherboard: Option<u8>)
    requires
        desc.separated(),
    ensures
        forall|i: int|
            0 <= i < desc.channels@.len() ==> region_encodes(
                control_report_spec(desc, quadro_plan(radiator, motherboard), FULL_DUTY),
                #[trigger] desc.channels@[i].1 as int,
                if desc.channels@[i].0@ == "fan1"@ || desc.channels@[i].0@ == "fan2"@ {
                    duty_or_full(radiator)
                } else if desc.channels@[i].0@ == "fan3"@ {
                    duty_or_full(motherboard)
                } else {
                    FULL_DUTY
                },
            ),
        radiator is None ==> forall|i: int|
            0 <= i < desc.channels@.len() && (desc.channels@[i].0@ == "fan1"@ || desc.channels@[i].0@
                == "fan2"@) ==> region_encodes(
                control_report_spec(desc, quadro_plan(radiator, motherboard), FULL_DUTY),
                #[trigger] desc.channels@[i].1 as int,
                FULL_DUTY,
            ),
        motherboard is None ==> forall|i: int|
            0 <= i < desc.channels@.len() && desc.channels@[i].0@ == "fan3"@ ==> region_encodes(
                control_report_spec(desc, quadro_plan(radiator, motherboard), FULL_DUTY),
                #[trigger] desc.channels@[i].1 as int,
                FULL_DUTY,
            ),
{
    let plan = quadro_plan(radiator, motherboard);
    lemma_report_layout(desc, plan, FULL_DUTY);
    reveal_strlit("fan1");
    reveal_strlit("fan2");
    reveal_strlit("fan3");
    assert("fan1"@[3] != "fan3"@[3] && "fan2"@[3] != "fan3"@[3]);
    assert forall|name: Seq<char>| true implies #[trigger] duty_for(plan, name, FULL_DUTY) == if name
        == "fan1"@ || name == "fan2"@ {
        duty_or_full(radiator)
    } else if name == "fan3"@ {
        duty_or_full(motherboard)
    } else {
        FULL_DUTY
    } by {
        assert(plan.drop_first() =~= seq![("fan2", duty_or_full(radiator)), ("fan3", duty_or_full(motherboard))]);
        assert(plan.drop_first().drop_first() =~= seq![("fan3", duty_or_full(motherboard))]);
        assert(plan.drop_first().drop_first().drop_first() =~= Seq::<(&'static str, u8)>::empty());
        assert("fan1"@[3] != "fan2"@[3]);
        assert("fan1"@[3] != "fan3"@[3]);
        assert("fan2"@[3] != "fan3"@[3]);
        reveal_with_fuel(duty_for, 4);
    }
}

/// D5 Next routing as it reaches the device: every channel named `pump` is
/// set to the pump duty and every other channel to full duty; an
/// unavailable CPU or GPU temperature therefore leaves the pump at full duty.
pub proof fn lemma_d5next_routing(desc: DeviceDescriptor, pump: Option<u8>)
    requires
        desc.separated(),
    ensures
        forall|i: int|
            0 <= i < desc.channels@.len() ==> region_encodes(
                control_report_spec(desc, d5next_plan(pump), FULL_DUTY),
                #[trigger] desc.channels@[i].1 as int,
                if desc.channels@[i].0@ == "pump"@ {
                    duty_or_full(pump)
                } else {
                    FULL_DUTY
                },
            ),
        pump is None ==> forall|i: int|
            0 <= i < desc.channels@.len() ==> region_encodes(
                control_report_spec(desc, d5next_plan(pump), FULL_DUTY),
                #[trigger] desc.channels@[i].1 as int,
                FULL_DUTY,
            ),
{
    let plan = d5next_plan(pump);
    lemma_report_layout(desc, plan, FULL_DUTY);
    assert forall|name: Seq<char>| true implies #[trigger] duty_for(plan, name, FULL_DUTY) == if name
        == "pump"@ {
        duty_or_full(pump)
    } else {
        FULL_DUTY
    } by {
        assert(plan.drop_first() =~= Seq::<(&'static str, u8)>::empty());
        reveal_with_fuel(duty_for, 2);
    }
}

/// The emergency report, which names no channel and falls back to full
/// duty, drives every channel of the device at full duty.
pub proof fn lemma_emergency_full_duty(desc: DeviceDescriptor)
    requires
        desc.separated(),
    ensures
        forall|i: int|
            0 <= i < desc.channels@.len() ==> region_encodes(
                control_report_spec(desc, Seq::<(&'static str, u8)>::empty(), FULL_DUTY),
                #[trigger] desc.channels@[i].1 as int,
                FULL_DUTY,
            ),
{
    lemma_report_layout(desc, Seq::<(&'static str, u8)>::empty(), FULL_DUTY);
}

} // verus!
