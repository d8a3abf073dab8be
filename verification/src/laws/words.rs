//! What people are shown, and what they ask for on the command line.

use vstd::prelude::*;

use super::color::{colors_are_written_channel_by_channel, hex_letters_count_on};
use crate::cli::{
    asks_for_root, config_in, counted, summary_of, understood, with_argument, with_file, ArgsV,
    FoundV, ParsedV,
};
use crate::color::named_color;
use crate::compile::resolve::Resolution;
use crate::gui::{
    clusters_among, color_code, command_words, condition_words, detail_words, device_label,
    edge_source, escaped, escaped_char, graph_of, leads_cluster, op_symbol, orphans_among,
    rule_edges, touched, trigger_words, upper_hex, EdgeV, GraphV,
};
use crate::ids::DeviceId;
use crate::model::{CapabilityKind, CommandV, Millis};
use crate::observe::{considered_words, filled, stamp_of};
use crate::rule::{CmpOp, ConditionV, CrossDir, RuleV, TriggerV, Truth};
use crate::text::{decimal, digits_value, hex_value, signed_decimal};

verus! {

// ------------------------------------------------------------ the picture

proof fn lemma_upper_hex(d: u8)
    requires
        d < 16,
    ensures
        hex_value(upper_hex(d)) == Some(d as nat),
{
    hex_letters_count_on(upper_hex(d));
}

/// The code that a color is shown as names just that color.
pub proof fn color_codes_name_their_color(r: u8, g: u8, b: u8)
    ensures
        named_color(color_code(r, g, b)) == Some((r, g, b)),
{
    lemma_upper_hex(r / 16);
    lemma_upper_hex(r % 16);
    lemma_upper_hex(g / 16);
    lemma_upper_hex(g % 16);
    lemma_upper_hex(b / 16);
    lemma_upper_hex(b % 16);
    let s = seq![
        upper_hex(r / 16),
        upper_hex(r % 16),
        upper_hex(g / 16),
        upper_hex(g % 16),
        upper_hex(b / 16),
        upper_hex(b % 16),
    ];
    colors_are_written_channel_by_channel(s, r, g, b);
    assert(seq!['#'] + s =~= color_code(r, g, b));
}

/// A device is shown by its name, and the clock as the clock.
pub proof fn devices_are_shown_by_name(cfg: Resolution, i: int)
    requires
        0 <= i < cfg.devices.len(),
        cfg.devices.len() < u32::MAX,
        cfg.clock == DeviceId(cfg.devices.len() as u32),
    ensures
        device_label(cfg, DeviceId(i as u32)) == cfg.devices[i].name,
        device_label(cfg, cfg.clock) == "clock"@,
{
}

/// A command is told as what it does to which device, and by how much.
pub proof fn commands_are_told_as_they_are(
    cfg: Resolution,
    device: DeviceId,
    value: u8,
    mireds: u16,
    ms: Millis,
)
    ensures
        ({
            let name = device_label(cfg, device);
            &&& command_words(cfg, CommandV::SetSwitch { device, on: true }) == "set "@ + name
                + " on"@
            &&& command_words(cfg, CommandV::SetSwitch { device, on: false }) == "set "@ + name
                + " off"@
            &&& command_words(cfg, CommandV::ToggleSwitch { device }) == "toggle "@ + name
            &&& command_words(cfg, CommandV::IncreaseBrightness { device, value }) == "increase "@
                + name + " brightness by "@ + decimal(value as nat)
            &&& command_words(cfg, CommandV::DecreaseBrightness { device, value }) == "decrease "@
                + name + " brightness by "@ + decimal(value as nat)
            &&& command_words(
                cfg,
                CommandV::SetBrightness { device, value, transition: None },
            ) == "set "@ + name + " brightness to "@ + decimal(value as nat) + "%"@
            &&& command_words(
                cfg,
                CommandV::SetBrightness { device, value, transition: Some(ms) },
            ) == "set "@ + name + " brightness to "@ + decimal(value as nat) + "%"@ + (" over "@
                + decimal(ms as nat) + "ms"@)
            &&& command_words(
                cfg,
                CommandV::SetColorTemperature { device, mireds, transition: None },
            ) == "set "@ + name + " color temp to "@ + decimal(mireds as nat) + " mired"@
        }),
{
    let name = device_label(cfg, device);
    let a = "set "@ + name + " brightness to "@ + decimal(value as nat) + "%"@;
    let b = "set "@ + name + " color temp to "@ + decimal(mireds as nat) + " mired"@;
    assert(a + Seq::<char>::empty() =~= a);
    assert(b + Seq::<char>::empty() =~= b);
}

/// A trigger is told as what it waits for.
pub proof fn triggers_are_told_as_they_are(
    cfg: Resolution,
    device: DeviceId,
    kind: CapabilityKind,
    bound: i64,
)
    ensures
        ({
            let what = "when "@ + device_label(cfg, device) + " "@ + kind.spec_label();
            &&& trigger_words(cfg, TriggerV::Changed { device, kind, to: true }) == what + " → "@
                + "true"@
            &&& trigger_words(cfg, TriggerV::Changed { device, kind, to: false }) == what
                + " → "@ + "false"@
            &&& trigger_words(
                cfg,
                TriggerV::Crosses { device, kind, bound, dir: CrossDir::Above },
            ) == what + " rises to "@ + signed_decimal(bound as int)
            &&& trigger_words(
                cfg,
                TriggerV::Crosses { device, kind, bound, dir: CrossDir::Below },
            ) == what + " falls to "@ + signed_decimal(bound as int)
            &&& trigger_words(cfg, TriggerV::CommandFailed { device: Some(device) })
                == "when a command to "@ + device_label(cfg, device) + " fails"@
        }),
{
}

/// A condition is told as what it asks for: both of two as `and`, either as `or`.
pub proof fn conditions_are_told_as_they_are(
    cfg: Resolution,
    device: DeviceId,
    kind: CapabilityKind,
    value: bool,
    a: ConditionV,
    b: ConditionV,
)
    requires
        condition_words(cfg, a) is Some,
        condition_words(cfg, b) is Some,
    ensures
        condition_words(cfg, ConditionV::BoolEquals { device, kind, value }) == Some(
            device_label(cfg, device) + " "@ + kind.spec_label() + " is "@ + (if value {
                "true"@
            } else {
                "false"@
            }),
        ),
        condition_words(cfg, ConditionV::And(seq![a, b])) == Some(
            condition_words(cfg, a)->0 + " and "@ + condition_words(cfg, b)->0,
        ),
        condition_words(cfg, ConditionV::Or(seq![a, b])) == Some(
            condition_words(cfg, a)->0 + " or "@ + condition_words(cfg, b)->0,
        ),
        condition_words(cfg, ConditionV::Not(Box::new(a))) == Some(
            "not ("@ + condition_words(cfg, a)->0 + ")"@,
        ),
        condition_words(cfg, ConditionV::Always) is None,
{
    let cs = seq![a, b];
    let x = condition_words(cfg, a)->0;
    let y = condition_words(cfg, b)->0;
    reveal_with_fuel(condition_words, 2);
    reveal_with_fuel(crate::gui::all_words, 4);
    assert(crate::gui::all_words(cfg, cs, 1) =~= seq![x]);
    assert(crate::gui::all_words(cfg, cs, 2) =~= seq![x, y]);
    reveal_with_fuel(crate::text::joined, 3);
    assert(seq![x, y].drop_last() =~= seq![x]);
    let not = ConditionV::Not(Box::new(a));
    assert(condition_words(cfg, not) == Some("not ("@ + x + ")"@));
}

/// A comparison is shown by the sign of what it tests.
pub proof fn comparisons_are_shown_as_what_they_test(op: CmpOp, a: i64, b: i64)
    ensures
        op_symbol(op) == "<"@ ==> (op.holds(a, b) <==> a < b),
        op_symbol(op) == "≤"@ ==> (op.holds(a, b) <==> a <= b),
        op_symbol(op) == "="@ ==> (op.holds(a, b) <==> a == b),
        op_symbol(op) == "≠"@ ==> (op.holds(a, b) <==> a != b),
        op_symbol(op) == "≥"@ ==> (op.holds(a, b) <==> a >= b),
        op_symbol(op) == ">"@ ==> (op.holds(a, b) <==> a > b),
{
    reveal_strlit("<");
    reveal_strlit("≤");
    reveal_strlit("=");
    reveal_strlit("≠");
    reveal_strlit("≥");
    reveal_strlit(">");
    assert("<"@[0] == '<' && "≤"@[0] == '≤' && "="@[0] == '=');
    assert("≠"@[0] == '≠' && "≥"@[0] == '≥' && ">"@[0] == '>');
}

/// Every command of a rule that is for a device is an edge, from where the rule begins to
/// that device, and there is no other edge.
pub proof fn edges_lead_from_cause_to_effect(cfg: Resolution, r: RuleV, n: nat)
    requires
        n <= r.commands.len(),
    ensures
        forall|i: int|
            0 <= i < n && (#[trigger] r.commands[i]).target() is Some ==> rule_edges(
                cfg,
                r,
                n,
            ).contains(
                EdgeV {
                    from: edge_source(cfg, r).0,
                    to: (r.commands[i].target()->0).0,
                    label: r.name,
                    detail: detail_words(cfg, r, r.commands[i]),
                },
            ),
        forall|k: int|
            0 <= k < rule_edges(cfg, r, n).len() ==> (#[trigger] rule_edges(cfg, r, n)[k]).from
                == edge_source(cfg, r).0 && rule_edges(cfg, r, n)[k].label == r.name,
        rule_edges(cfg, r, n).len() <= n,
    decreases n,
{
    if n > 0 {
        edges_lead_from_cause_to_effect(cfg, r, (n - 1) as nat);
        let before = rule_edges(cfg, r, (n - 1) as nat);
        let all = rule_edges(cfg, r, n);
        assert forall|i: int| 0 <= i < n && (#[trigger] r.commands[i]).target() is Some implies all.contains(

            EdgeV {
                from: edge_source(cfg, r).0,
                to: (r.commands[i].target()->0).0,
                label: r.name,
                detail: detail_words(cfg, r, r.commands[i]),
            },
        ) by {
            let e = EdgeV {
                from: edge_source(cfg, r).0,
                to: (r.commands[i].target()->0).0,
                label: r.name,
                detail: detail_words(cfg, r, r.commands[i]),
            };
            if i < n - 1 {
                assert(before.contains(e));
                let j = choose|j: int| 0 <= j < before.len() && before[j] == e;
                assert(all[j] == e);
            } else {
                assert(all[all.len() - 1] == e);
            }
        }
        assert forall|k: int| 0 <= k < all.len() implies (#[trigger] all[k]).from == edge_source(
            cfg,
            r,
        ).0 && all[k].label == r.name by {
            if k < before.len() {
                assert(all[k] == before[k]);
            }
        }
    }
}

/// A rule begins at the device that triggers it, and at the clock if none does.
pub proof fn rules_begin_at_their_device(cfg: Resolution, r: RuleV, device: DeviceId)
    ensures
        r.trigger matches TriggerV::Changed { device, .. } ==> edge_source(cfg, r) == device,
        r.trigger matches TriggerV::Crosses { device, .. } ==> edge_source(cfg, r) == device,
        r.trigger matches TriggerV::Reports { device, .. } ==> edge_source(cfg, r) == device,
        r.trigger matches TriggerV::Action { device, .. } ==> edge_source(cfg, r) == device,
        r.trigger == (TriggerV::CommandFailed { device: Some(device) }) ==> edge_source(cfg, r)
            == device,
        r.trigger is Timer || r.trigger is Time ==> edge_source(cfg, r) == cfg.clock,
{
}

/// Every device is a node, by its number and its name.
pub proof fn every_device_is_a_node(cfg: Resolution, i: int)
    requires
        0 <= i < cfg.devices.len(),
    ensures
        graph_of(cfg).nodes.len() >= cfg.devices.len(),
        graph_of(cfg).nodes[i].id == cfg.devices[i].id.0,
        graph_of(cfg).nodes[i].label == cfg.devices[i].name,
        graph_of(cfg).system_name == cfg.system.name,
{
}

/// No tag is left in what is escaped, and what needs no escape stays as it is.
pub proof fn escaped_texts_hold_no_tag(s: Seq<char>)
    ensures
        forall|i: int|
            0 <= i < escaped(s).len() ==> #[trigger] escaped(s)[i] != '<' && escaped(s)[i] != '>',
        (forall|i: int| 0 <= i < s.len() ==> #[trigger] s[i] != '<' && s[i] != '>' && s[i] != '&')
            ==> escaped(s) == s,
    decreases s.len(),
{
    reveal_strlit("&amp;");
    reveal_strlit("&lt;");
    reveal_strlit("&gt;");
    if s.len() > 0 {
        escaped_texts_hold_no_tag(s.drop_last());
        let rest = escaped(s.drop_last());
        let last = escaped_char(s.last());
        assert forall|i: int| 0 <= i < last.len() implies #[trigger] last[i] != '<' && last[i]
            != '>' by {}
        assert forall|i: int| 0 <= i < escaped(s).len() implies #[trigger] escaped(s)[i] != '<'
            && escaped(s)[i] != '>' by {
            if i < rest.len() {
                assert(escaped(s)[i] == rest[i]);
            } else {
                assert(escaped(s)[i] == last[i - rest.len()]);
            }
        }
        if forall|i: int| 0 <= i < s.len() ==> #[trigger] s[i] != '<' && s[i] != '>' && s[i] != '&' {
            let r = s.drop_last();
            assert forall|i: int| 0 <= i < r.len() implies #[trigger] r[i] != '<' && r[i] != '>'
                && r[i] != '&' by {
                assert(r[i] == s[i]);
            }
            assert(s[s.len() - 1] != '<');
            assert(r + seq![s.last()] =~= s);
        }
    } else {
        assert(escaped(s) =~= s);
    }
}

// ------------------------------------------------------------ the log

proof fn lemma_zeros(k: nat, s: Seq<char>)
    ensures
        digits_value(Seq::new(k, |i: int| '0') + s) == digits_value(s),
    decreases k + s.len(),
{
    let z = Seq::new(k, |i: int| '0');
    if s.len() > 0 {
        lemma_zeros(k, s.drop_last());
        assert((z + s).drop_last() =~= z + s.drop_last());
        assert((z + s).last() == s.last());
    } else if k > 0 {
        let y = Seq::new((k - 1) as nat, |i: int| '0');
        lemma_zeros((k - 1) as nat, s);
        assert(z + s =~= z);
        assert(y + s =~= y);
        assert(z.drop_last() =~= y);
        assert(z.last() == '0');
    } else {
        assert(z + s =~= s);
    }
}

/// The time in the log is the seconds, and after the point the milliseconds, always three
/// digits.
pub proof fn stamps_are_seconds_and_milliseconds(elapsed: Millis)
    ensures
        exists|a: Seq<char>, b: Seq<char>|
            {
                &&& stamp_of(elapsed) == #[trigger] (a + "."@ + b)
                &&& b.len() == 3
                &&& digits_value(b) == Some((elapsed % 1000) as nat)
                &&& a.len() >= 4
                &&& elapsed >= 1_000_000 ==> digits_value(a) == Some((elapsed / 1000) as nat)
            },
{
    let low = (elapsed % 1000) as nat;
    let high = (elapsed / 1000) as nat;
    let b = filled(decimal(low), '0', 3);
    let a = filled(decimal(high), ' ', 4);
    reveal_with_fuel(crate::text::decimal, 4);
    crate::text::decimal_is_parsed_back(low);
    crate::text::decimal_is_parsed_back(high);
    super::lower::lemma_decimal_plain(low);
    super::lower::lemma_decimal_plain(high);
    assert(decimal(low)[0] != '+');
    assert(decimal(high)[0] != '+');
    assert(decimal(low).len() <= 3);
    lemma_zeros((3 - decimal(low).len()) as nat, decimal(low));
    if decimal(low).len() == 3 {
        assert(Seq::new(0, |i: int| '0') + decimal(low) =~= decimal(low));
    }
    if elapsed >= 1_000_000 {
        assert(decimal(high).len() >= 4) by {
            assert(high >= 1000);
            super::lower::lemma_decimal_plain(high / 1000);
            assert(high / 10 / 10 / 10 == high / 1000);
        }
    }
    assert(stamp_of(elapsed) == a + "."@ + b);
}

/// A rule that fires is told so, and one that does not is told why.
pub proof fn verdicts_are_told(rule: Seq<char>, truth: Truth)
    ensures
        considered_words(rule, Truth::True, true) == "rule '"@ + rule
            + "': trigger matched, condition True -> FIRING"@,
        considered_words(rule, Truth::False, false) == "rule '"@ + rule
            + "': trigger matched, condition False -> not firing"@,
        considered_words(rule, Truth::Unknown, false) != considered_words(rule, Truth::False, false),
{
    reveal_strlit("': trigger matched, condition False -> not firing");
    reveal_strlit(
        "': trigger matched, but condition is UNKNOWN (a capability it reads has never been reported) -> not firing",
    );
    let a = considered_words(rule, Truth::Unknown, false);
    let b = considered_words(rule, Truth::False, false);
    assert(a.len() != b.len());
}

// ------------------------------------------------------------ the command line

/// A flag is understood wherever it stands, and what is no flag is a configuration, in its
/// place.
pub proof fn arguments_are_understood(so_far: ArgsV, rest: Seq<Seq<char>>, arg: Seq<char>)
    ensures
        understood(so_far, Seq::empty()) == ParsedV::Given(so_far),
        understood(so_far, seq!["-v"@] + rest) == understood(
            ArgsV { verbose: true, ..so_far },
            rest,
        ),
        understood(so_far, seq!["--check"@] + rest) == understood(
            ArgsV { check: true, ..so_far },
            rest,
        ),
        understood(so_far, seq!["-c"@, arg] + rest) == understood(
            ArgsV { configs: so_far.configs.push(arg), ..so_far },
            rest,
        ),
        understood(so_far, seq!["--help"@] + rest) == ParsedV::Help,
        understood(so_far, seq!["-c"@]) is Misused,
        arg.len() > 0 && arg[0] != '-' ==> understood(so_far, seq![arg] + rest) == understood(
            ArgsV { configs: so_far.configs.push(arg), ..so_far },
            rest,
        ),
{
    reveal_strlit("-");
    reveal_strlit("-v");
    reveal_strlit("--verbose");
    reveal_strlit("--check");
    reveal_strlit("-c");
    reveal_strlit("--config");
    reveal_strlit("-h");
    reveal_strlit("--help");
    assert("-v"@.len() == 2 && "-c"@.len() == 2 && "-h"@.len() == 2);
    assert("--check"@.len() == 7 && "--verbose"@.len() == 9 && "--config"@.len() == 8
        && "--help"@.len() == 6);
    assert("-v"@[1] == 'v' && "-c"@[1] == 'c' && "-h"@[1] == 'h');
    assert("-v"@[0] == '-' && "-c"@[0] == '-' && "-h"@[0] == '-' && "--check"@[0] == '-'
        && "--verbose"@[0] == '-' && "--config"@[0] == '-' && "--help"@[0] == '-');
    reveal_with_fuel(understood, 2);
    assert((seq!["-v"@] + rest).drop_first() =~= rest);
    assert((seq!["--check"@] + rest).drop_first() =~= rest);
    assert((seq![arg] + rest).drop_first() =~= rest);
    let two = seq!["-c"@, arg] + rest;
    assert(two.drop_first() =~= seq![arg] + rest);
    assert(two.drop_first().drop_first() =~= rest);
    assert(seq!["-c"@].drop_first().len() == 0);
    if arg.len() > 0 && arg[0] != '-' {
        assert(arg.take(1)[0] == arg[0]);
        assert("-"@[0] == '-');
    }
}

/// Without a configuration the usual file is run, one is run as it is named, and several,
/// or a pattern, are not run.
pub proof fn one_configuration_is_run(path: Seq<char>, other: Seq<char>)
    ensures
        config_in(Seq::empty()) == Ok::<Seq<char>, Seq<char>>("config.yaml"@),
        !path.contains('*') && !path.contains('?') && !path.contains('[') ==> config_in(seq![path])
            == Ok::<Seq<char>, Seq<char>>(path),
        path.contains('*') || path.contains('?') || path.contains('[') ==> config_in(seq![path])
            is Err,
        config_in(seq![path, other]) is Err,
{
}

/// A file is checked once, in the place where it was first named.
pub proof fn files_keep_their_place(files: Seq<Seq<char>>, path: Seq<char>)
    ensures
        with_file(files, path).contains(path),
        files.is_prefix_of(with_file(files, path)),
        files.contains(path) ==> with_file(files, path) == files,
{
    if !files.contains(path) {
        assert(with_file(files, path)[files.len() as int] == path);
    }
}

/// Without rules no device is in a cluster, and every one stands alone. A device is in a
/// cluster or stands alone, never both, and the first that a rule touches is in one.
pub proof fn devices_stand_alone_or_in_a_cluster(g: GraphV, n: nat)
    requires
        n <= g.nodes.len(),
    ensures
        g.edges.len() == 0 ==> clusters_among(g, n) == 0 && orphans_among(g, n) == n,
        clusters_among(g, n) + orphans_among(g, n) <= n,
        n > 0 && touched(g, g.edges.len(), g.nodes[0].id) ==> clusters_among(g, n) >= 1,
        (forall|i: int|
            0 <= i < n ==> touched(g, g.edges.len(), (#[trigger] g.nodes[i]).id)) ==> orphans_among(
            g,
            n,
        ) == 0,
    decreases n,
{
    if n > 0 {
        devices_stand_alone_or_in_a_cluster(g, (n - 1) as nat);
        if n == 1 && touched(g, g.edges.len(), g.nodes[0].id) {
            assert(leads_cluster(g, 0));
            reveal_with_fuel(clusters_among, 2);
        }
    }
}

/// What was checked is summed up where there was more than one file: how many in all, how
/// many went well, and how many did not.
pub proof fn checks_are_summed_up(ok: nat, failed: nat, devices: nat, scenes: nat, rules: nat)
    ensures
        summary_of(ok, failed) is Some <==> ok + failed >= 2,
        ok + failed >= 2 ==> summary_of(ok, failed) == Some(
            "checked "@ + decimal(ok + failed) + " file(s): "@ + decimal(ok) + " ok, "@ + decimal(
                failed,
            ) + " failed"@,
        ),
        counted(devices, scenes, rules) == decimal(devices) + " device(s), "@ + decimal(scenes)
            + " scene(s), "@ + decimal(rules) + " rule(s)"@,
{
}

/// A pattern stands for the files that it matches, each once; a path stands for itself, and
/// a pattern that matches nothing is an error.
pub proof fn patterns_stand_for_what_they_match(
    files: Seq<Seq<char>>,
    pat: Seq<char>,
    path: Seq<char>,
    why: Seq<char>,
)
    ensures
        with_argument(files, pat, FoundV::Literal) == Ok::<Seq<Seq<char>>, Seq<char>>(
            with_file(files, pat),
        ),
        with_argument(files, pat, FoundV::Entries(seq![Ok(path)])) == Ok::<
            Seq<Seq<char>>,
            Seq<char>,
        >(with_file(files, path)),
        with_argument(files, pat, FoundV::Entries(Seq::empty())) is Err,
        with_argument(files, pat, FoundV::Entries(seq![Err(why)])) is Err,
        with_argument(files, pat, FoundV::BadPattern(why)) is Err,
{
    reveal_with_fuel(crate::cli::with_entries, 3);
}

/// Only the root is asked whether all is well.
pub proof fn only_the_root_is_asked(rest: Seq<char>)
    ensures
        asks_for_root("GET / "@ + rest),
        !asks_for_root("POST / "@ + rest),
{
    reveal_strlit("GET / ");
    reveal_strlit("POST / ");
    let a = "GET / "@ + rest;
    let b = "POST / "@ + rest;
    assert(a.take(6) =~= "GET / "@);
    assert(b.take(6)[0] == 'P' && "GET / "@[0] == 'G');
}

} // verus!
