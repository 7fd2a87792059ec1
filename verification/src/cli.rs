//! What the operator's commands read and print.
use crate::api::ops::{RoutingInfo, RoutingView};
use crate::error::{Error, ErrorView};
use crate::meta::state_machine::{MetaApplyResult, ResultView};
use crate::number::{number_in, parse_number};
use crate::placement::{part_views, Parts};
use crate::strings::texts;
use crate::text::{
    bracketed, decimal, hex, id_numbers, is_text, prefixed, to_bracketed, to_decimal, to_hex,
};
use crate::types::{GroupId, NodeDirectoryEntry, NodeEntryView, Placement, PlacementView};
use vstd::prelude::*;
use vstd::string::StrSliceExecFns;

verus! {

// -- arguments -----------------------------------------------------------------

/// The place of the first argument that is a name.
pub open spec fn flag_slot(args: Seq<Seq<char>>, name: Seq<char>) -> Option<int>
    decreases args.len(),
{
    if args.len() == 0 {
        None
    } else {
        match flag_slot(args.drop_last(), name) {
            Some(i) => Some(i),
            None => if args.last() == name {
                Some(args.len() - 1)
            } else {
                None
            },
        }
    }
}

/// What stands behind the first argument that is a name.
pub open spec fn flag_value(args: Seq<Seq<char>>, name: Seq<char>) -> Option<Seq<char>> {
    match flag_slot(args, name) {
        Some(i) => if i + 1 < args.len() {
            Some(args[i + 1])
        } else {
            None
        },
        None => None,
    }
}

proof fn lemma_flag_stays(args: Seq<Seq<char>>, name: Seq<char>, n: int, i: int)
    requires
        0 <= n <= args.len(),
        flag_slot(args.take(n), name) == Some(i),
    ensures
        flag_slot(args, name) == Some(i),
    decreases args.len() - n,
{
    if n == args.len() {
        assert(args.take(n) =~= args);
    } else {
        assert(args.take(n + 1).drop_last() =~= args.take(n));
        lemma_flag_stays(args, name, n + 1, i);
    }
}

/// Look up the value of a flag.
pub fn flag<'a>(args: &'a Vec<String>, name: &str) -> (r: Option<&'a String>)
    ensures
        match r {
            Some(v) => flag_value(texts(args@), name@) == Some(v@),
            None => flag_value(texts(args@), name@) is None,
        },
{
    let ghost views = texts(args@);
    let mut i: usize = 0;
    assert(views.take(0) =~= Seq::<Seq<char>>::empty());
    while i < args.len()
        invariant
            i <= args@.len(),
            views == texts(args@),
            flag_slot(views.take(i as int), name@) is None,
        decreases args@.len() - i,
    {
        proof {
            assert(views.take(i + 1).drop_last() =~= views.take(i as int));
            assert(views.take(i + 1).last() == views[i as int]);
        }
        if is_text(&args[i], name) {
            proof {
                lemma_flag_stays(views, name@, i + 1, i as int);
            }
            return if i + 1 < args.len() {
                Some(&args[i + 1])
            } else {
                None
            };
        }
        i += 1;
    }
    assert(views.take(i as int) =~= views);
    None
}

/// Whether a text names the meta group, in whatever case.
pub open spec fn is_meta(s: Seq<char>) -> bool {
    s.len() == 4 && (s[0] == 'm' || s[0] == 'M') && (s[1] == 'e' || s[1] == 'E') && (s[2] == 't'
        || s[2] == 'T') && (s[3] == 'a' || s[3] == 'A')
}

/// The group that a text names: the meta group, or a partition's number.
pub open spec fn group_in(s: Seq<char>) -> Result<GroupId, Seq<char>> {
    if is_meta(s) {
        Ok(GroupId::Meta)
    } else {
        match number_in(s, 10, u16::MAX as nat) {
            Ok(n) => Ok(GroupId::Data(n as u16)),
            Err(e) => Err("--group must be 'meta' or a partition number: "@ + e.text()),
        }
    }
}

/// Read the name of a group.
pub fn parse_group(s: &str) -> (r: Result<GroupId, String>)
    ensures
        match (r, group_in(s@)) {
            (Ok(a), Ok(b)) => a == b,
            (Err(e), Err(f)) => e@ == f,
            _ => false,
        },
{
    if s.unicode_len() == 4 {
        let a: char = s.get_char(0);
        let b: char = s.get_char(1);
        let c: char = s.get_char(2);
        let d: char = s.get_char(3);
        if (a == 'm' || a == 'M') && (b == 'e' || b == 'E') && (c == 't' || c == 'T') && (d == 'a'
            || d == 'A') {
            return Ok(GroupId::Meta);
        }
    }
    assert(s@.skip(0) =~= s@);
    match parse_number(s, 0, 10, u16::MAX as u128) {
        Ok(n) => {
            proof {
                crate::number::lemma_number_bound(s@, 10, u16::MAX as nat);
            }
            Ok(GroupId::Data(n as u16))
        },
        Err(e) => Err(
            prefixed("--group must be 'meta' or a partition number: ", e.to_text()),
        ),
    }
}

/// Read the id of a node or of a plan.
pub fn parse_id(s: &str) -> (r: Option<u64>)
    ensures
        match (r, number_in(s@, 10, u64::MAX as nat)) {
            (Some(a), Ok(b)) => a == b,
            (None, Err(_)) => true,
            _ => false,
        },
{
    assert(s@.skip(0) =~= s@);
    match parse_number(s, 0, 10, u64::MAX as u128) {
        Ok(n) => {
            proof {
                crate::number::lemma_number_bound(s@, 10, u64::MAX as nat);
            }
            Some(n as u64)
        },
        Err(_) => None,
    }
}

// -- reports -------------------------------------------------------------------

/// A line for the operator, and whether the command succeeded.
#[derive(Debug, Clone, PartialEq, Eq)]
pub struct Report {
    pub text: String,
    pub success: bool,
}

/// The line for a command's outcome.
pub open spec fn report_line(command: Seq<char>, result: Result<ResultView, ErrorView>) -> (
    Seq<char>,
    bool,
) {
    match result {
        Ok(ResultView::Applied) => (command + ": applied"@, true),
        Ok(ResultView::NoOp) => (command + ": no change (already applied)"@, true),
        Ok(ResultView::Rejected(why)) => (command + ": rejected: "@ + why.spec_label(), false),
        Err(e) => (command + ": "@ + e.text(), false),
    }
}

/// Report a command's outcome.
pub fn report(command: &str, result: &Result<MetaApplyResult, Error>) -> (r: Report)
    ensures
        (r.text@, r.success) == report_line(
            command@,
            match *result {
                Ok(outcome) => Ok(outcome@),
                Err(e) => Err(e@),
            },
        ),
{
    let mut text = command.to_owned();
    match result {
        Ok(MetaApplyResult::Applied) => {
            text.append(": applied");
            Report { text, success: true }
        },
        Ok(MetaApplyResult::NoOp) => {
            text.append(": no change (already applied)");
            Report { text, success: true }
        },
        Ok(MetaApplyResult::Rejected(why)) => {
            text.append(": rejected: ");
            text.append(why.label().as_str());
            Report { text, success: false }
        },
        Err(e) => {
            text.append(": ");
            text.append(e.to_text().as_str());
            Report { text, success: false }
        },
    }
}

// -- the routing snapshot ------------------------------------------------------

/// So many spaces.
pub open spec fn spaces(n: int) -> Seq<char>
    decreases n,
{
    if n <= 0 {
        Seq::empty()
    } else {
        spaces(n - 1).push(' ')
    }
}

fn push_spaces(s: &mut String, n: usize)
    ensures
        final(s)@ == old(s)@ + spaces(n as int),
{
    let ghost before = s@;
    let mut i: usize = 0;
    assert(s@ =~= before + spaces(0));
    while i < n
        invariant
            i <= n,
            s@ == before + spaces(i as int),
        decreases n - i,
    {
        s.append(" ");
        proof {
            reveal_strlit(" ");
            assert(s@ =~= before + spaces(i + 1));
        }
        i += 1;
    }
}

/// A text at the right of a column.
pub open spec fn right_aligned(text: Seq<char>, width: nat) -> Seq<char> {
    spaces(width - text.len()) + text
}

/// A text at the left of a column.
pub open spec fn left_aligned(text: Seq<char>, width: nat) -> Seq<char> {
    text + spaces(width - text.len())
}

fn append_right(s: &mut String, text: &str, width: usize)
    ensures
        final(s)@ == old(s)@ + right_aligned(text@, width as nat),
{
    let ghost before = s@;
    let len: usize = text.unicode_len();
    if len < width {
        push_spaces(s, width - len);
    } else {
        assert(spaces(width - len) =~= Seq::<char>::empty());
    }
    s.append(text);
    assert(s@ =~= before + right_aligned(text@, width as nat));
}

fn append_left(s: &mut String, text: &str, width: usize)
    ensures
        final(s)@ == old(s)@ + left_aligned(text@, width as nat),
{
    let ghost before = s@;
    let len: usize = text.unicode_len();
    s.append(text);
    if len < width {
        push_spaces(s, width - len);
    } else {
        assert(spaces(width - len) =~= Seq::<char>::empty());
    }
    assert(s@ =~= before + left_aligned(text@, width as nat));
}

/// The line for a node.
pub open spec fn node_line(e: NodeEntryView) -> Seq<char> {
    "  "@ + right_aligned(decimal(e.node_id as nat), 4) + "  "@ + left_aligned(e.control_addr, 28)
        + "  "@ + e.state.spec_label() + "  incarnation="@ + decimal(e.incarnation as nat)
}

/// Write the line for a node.
pub fn describe_node(e: &NodeDirectoryEntry) -> (s: String)
    ensures
        s@ == node_line(e@),
{
    let mut s = "  ".to_owned();
    append_right(&mut s, to_decimal(e.node_id as u128).as_str(), 4);
    s.append("  ");
    append_left(&mut s, e.control_addr.as_str(), 28);
    s.append("  ");
    s.append(e.state.label());
    s.append("  incarnation=");
    s.append(to_decimal(e.incarnation as u128).as_str());
    s
}

/// The line for a partition.
pub open spec fn placement_line(partition: u16, p: PlacementView) -> Seq<char> {
    let line = "  partition "@ + right_aligned(decimal(partition as nat), 4) + ": voters "@
        + bracketed(id_numbers(p.voters));
    match p.move_plan {
        Some(plan) => line + "  (move plan "@ + decimal(plan.plan_id as nat) + " -> "@ + bracketed(
            id_numbers(plan.target_voters),
        ) + ")"@,
        None => line,
    }
}

/// Write the line for a partition.
pub fn describe_placement(partition: u16, p: &Placement) -> (s: String)
    ensures
        s@ == placement_line(partition, p@),
{
    let mut s = "  partition ".to_owned();
    append_right(&mut s, to_decimal(partition as u128).as_str(), 4);
    s.append(": voters ");
    s.append(to_bracketed(&p.voters).as_str());
    if let Some(plan) = &p.move_plan {
        s.append("  (move plan ");
        s.append(to_decimal(plan.plan_id as u128).as_str());
        s.append(" -> ");
        s.append(to_bracketed(&plan.target_voters).as_str());
        s.append(")");
    }
    s
}

/// The place of the first entry above a partition.
pub open spec fn part_place(parts: Parts, partition: u16) -> int
    decreases parts.len(),
{
    if parts.len() == 0 || parts[0].0 > partition {
        0
    } else {
        1 + part_place(parts.skip(1), partition)
    }
}

/// Placements in the order of their partitions; of equal ones the earlier stays
/// before the later.
pub open spec fn by_partition(parts: Parts) -> Parts
    decreases parts.len(),
{
    if parts.len() == 0 {
        parts
    } else {
        let rest = by_partition(parts.drop_last());
        rest.insert(part_place(rest, parts.last().0), parts.last())
    }
}

proof fn lemma_part_place(parts: Parts, partition: u16, i: int)
    requires
        0 <= i <= parts.len(),
        forall|j: int| 0 <= j < i ==> (#[trigger] parts[j]).0 <= partition,
        i < parts.len() ==> parts[i].0 > partition,
    ensures
        part_place(parts, partition) == i,
    decreases parts.len(),
{
    if i > 0 {
        let t = parts.skip(1);
        assert(parts[0].0 <= partition);
        assert forall|j: int| 0 <= j < i - 1 implies (#[trigger] t[j]).0 <= partition by {
            assert(parts[j + 1].0 <= partition);
        }
        if i < parts.len() {
            assert(t[i - 1] == parts[i]);
        }
        lemma_part_place(t, partition, i - 1);
    }
}

fn ordered(parts: &Vec<(u16, Placement)>) -> (out: Vec<(u16, Placement)>)
    ensures
        part_views(out@) == by_partition(part_views(parts@)),
{
    let ghost all = part_views(parts@);
    let mut out: Vec<(u16, Placement)> = Vec::new();
    let mut i: usize = 0;
    proof {
        assert(all.take(0) =~= part_views(out@));
    }
    while i < parts.len()
        invariant
            i <= parts@.len(),
            all == part_views(parts@),
            part_views(out@) == by_partition(all.take(i as int)),
        decreases parts@.len() - i,
    {
        let partition: u16 = parts[i].0;
        let ghost rest = part_views(out@);
        let mut k: usize = 0;
        while k < out.len() && out[k].0 <= partition
            invariant
                k <= out@.len(),
                rest == part_views(out@),
                forall|j: int| 0 <= j < k ==> (#[trigger] rest[j]).0 <= partition,
            decreases out@.len() - k,
        {
            k += 1;
        }
        proof {
            lemma_part_place(rest, partition, k as int);
            assert(all.take(i + 1).drop_last() =~= all.take(i as int));
            assert(all.take(i + 1).last() == all[i as int]);
        }
        out.insert(k, (partition, parts[i].1.duplicate()));
        assert(part_views(out@) =~= rest.insert(k as int, all[i as int]));
        i += 1;
    }
    assert(all.take(i as int) =~= all);
    out
}

/// The lines for some placements.
pub open spec fn placement_lines(parts: Parts) -> Seq<Seq<char>> {
    parts.map_values(|p: (u16, PlacementView)| placement_line(p.0, p.1))
}

/// The lines of a routing snapshot.
pub open spec fn routing_lines(info: RoutingView) -> Seq<Seq<char>> {
    seq![
        "cluster_id: "@ + hex(info.cluster_id as nat),
        "partitions (p): "@ + decimal(info.p as nat),
        "nodes:"@,
    ] + info.directory.map_values(|e: NodeEntryView| node_line(e)) + seq!["placements:"@]
        + placement_lines(by_partition(info.placements))
}

/// Write a routing snapshot, line by line.
pub fn print_routing(info: &RoutingInfo) -> (lines: Vec<String>)
    ensures
        texts(lines@) == routing_lines(info@),
{
    let ghost nodes = info@.directory.map_values(|e: NodeEntryView| node_line(e));
    let ghost head = seq![
        "cluster_id: "@ + hex(info.cluster_id as nat),
        "partitions (p): "@ + decimal(info.p as nat),
        "nodes:"@,
    ];
    let mut lines: Vec<String> = Vec::new();
    lines.push(prefixed("cluster_id: ", to_hex(info.cluster_id).as_str()));
    lines.push(prefixed("partitions (p): ", to_decimal(info.p as u128).as_str()));
    lines.push("nodes:".to_owned());
    let mut i: usize = 0;
    assert(texts(lines@) =~= head + nodes.take(0));
    while i < info.directory.len()
        invariant
            i <= info.directory@.len(),
            nodes == info@.directory.map_values(|e: NodeEntryView| node_line(e)),
            texts(lines@) == head + nodes.take(i as int),
        decreases info.directory@.len() - i,
    {
        let ghost before = texts(lines@);
        lines.push(describe_node(&info.directory[i]));
        proof {
            assert(info@.directory[i as int] == info.directory@[i as int]@);
            assert(texts(lines@) =~= before.push(nodes[i as int]));
            assert(texts(lines@) =~= head + nodes.take(i + 1));
        }
        i += 1;
    }
    assert(nodes.take(i as int) =~= nodes);
    lines.push("placements:".to_owned());
    let ghost top = head + nodes + seq!["placements:"@];
    assert(texts(lines@) =~= top);
    let parts = ordered(&info.placements);
    let ghost placed = placement_lines(by_partition(info@.placements));
    let mut k: usize = 0;
    assert(texts(lines@) =~= top + placed.take(0));
    while k < parts.len()
        invariant
            k <= parts@.len(),
            part_views(parts@) == by_partition(info@.placements),
            placed == placement_lines(by_partition(info@.placements)),
            texts(lines@) == top + placed.take(k as int),
        decreases parts@.len() - k,
    {
        let ghost before = texts(lines@);
        lines.push(describe_placement(parts[k].0, &parts[k].1));
        proof {
            assert(part_views(parts@)[k as int] == (parts@[k as int].0, parts@[k as int].1@));
            assert(texts(lines@) =~= before.push(placed[k as int]));
            assert(texts(lines@) =~= top + placed.take(k + 1));
        }
        k += 1;
    }
    assert(placed.take(k as int) =~= placed);
    assert(texts(lines@) =~= routing_lines(info@));
    lines
}

/// A flag's value is the argument after its first occurrence.
pub proof fn law_flags_are_found(args: Seq<Seq<char>>, name: Seq<char>)
    ensures
        match flag_slot(args, name) {
            Some(i) => 0 <= i < args.len() && args[i] == name && (forall|j: int|
                0 <= j < i ==> #[trigger] args[j] != name) && (i + 1 < args.len() ==> flag_value(
                args,
                name,
            ) == Some(args[i + 1])) && (i + 1 == args.len() ==> flag_value(args, name) is None),
            None => !args.contains(name) && flag_value(args, name) is None,
        },
    decreases args.len(),
{
    if args.len() > 0 {
        let init = args.drop_last();
        law_flags_are_found(init, name);
        assert forall|j: int| 0 <= j < init.len() implies #[trigger] args[j] == init[j] by {}
        if flag_slot(args, name) is None && args.contains(name) {
            let k = args.index_of(name);
            assert(init[k] == name);
        }
        if flag_slot(init, name) is None {
            assert forall|j: int| 0 <= j < init.len() implies #[trigger] args[j] != name by {
                if args[j] == name {
                    assert(init[j] == name);
                    assert(init.contains(init[j]));
                }
            }
        }
    }
}

/// A command counts as a success if and only if it was applied or had been.
pub proof fn law_reports_tell_success(command: Seq<char>, result: Result<ResultView, ErrorView>)
    ensures
        report_line(command, result).1 <==> result == Ok::<ResultView, ErrorView>(
            ResultView::Applied,
        ) || result == Ok::<ResultView, ErrorView>(ResultView::NoOp),
        report_line(command, result).0.len() >= command.len(),
        report_line(command, result).0.take(command.len() as int) == command,
{
    let line = report_line(command, result).0;
    assert(line.take(command.len() as int) =~= command);
}

/// Aligned text is padded with spaces to its width, at the side that its name says not,
/// and never cut.
pub proof fn law_alignment_pads(text: Seq<char>, width: nat)
    ensures
        ({
            let l = left_aligned(text, width);
            let r = right_aligned(text, width);
            let n = if text.len() < width {
                width
            } else {
                text.len()
            };
            &&& l.len() == n && r.len() == n
            &&& l.take(text.len() as int) == text
            &&& r.skip(n - text.len()) == text
            &&& forall|i: int| text.len() <= i < n ==> #[trigger] l[i] == ' '
            &&& forall|i: int| 0 <= i < n - text.len() ==> #[trigger] r[i] == ' '
        }),
{
    lemma_spaces(width - text.len());
    let l = left_aligned(text, width);
    let r = right_aligned(text, width);
    assert(l.take(text.len() as int) =~= text);
    assert(r.skip(r.len() - text.len()) =~= text);
}

proof fn lemma_spaces(n: int)
    ensures
        spaces(n).len() == if n < 0 {
            0
        } else {
            n
        },
        forall|i: int| 0 <= i < spaces(n).len() ==> #[trigger] spaces(n)[i] == ' ',
    decreases n,
{
    if n > 0 {
        lemma_spaces(n - 1);
    }
}

/// The meta group is named in any mixture of cases; every other group by its partition
/// number.
pub proof fn law_groups_are_named(s: Seq<char>, t: Seq<char>)
    ensures
        group_in(s) == Ok::<GroupId, Seq<char>>(GroupId::Meta) <==> is_meta(s),
        is_meta(s) <==> s.len() == 4 && (s[0] == 'm' || s[0] == 'M') && (s[1] == 'e' || s[1] == 'E')
            && (s[2] == 't' || s[2] == 'T') && (s[3] == 'a' || s[3] == 'A'),
        group_in(s) is Ok && !is_meta(s) ==> (number_in(s, 10, 65535) matches Ok(n) && group_in(s)
            == Ok::<GroupId, Seq<char>>(GroupId::Data(n as u16))),
        group_in(s) is Err <==> !is_meta(s) && number_in(s, 10, 65535) is Err,
{
}

/// Placements are printed in the order of their partitions, each as often as it is
/// given.
pub proof fn law_placements_are_ordered(parts: Parts)
    ensures
        by_partition(parts).to_multiset() == parts.to_multiset(),
        forall|i: int, j: int|
            0 <= i < j < by_partition(parts).len() ==> (#[trigger] by_partition(parts)[i]).0 <= (
            #[trigger] by_partition(parts)[j]).0,
    decreases parts.len(),
{
    broadcast use vstd::seq_lib::group_to_multiset_ensures;

    if parts.len() > 0 {
        let init = parts.drop_last();
        let last = parts.last();
        law_placements_are_ordered(init);
        let rest = by_partition(init);
        let k = part_place(rest, last.0);
        lemma_part_place_splits(rest, last.0);
        let all = rest.insert(k, last);
        assert(parts =~= init.push(last));
        assert forall|i: int, j: int| 0 <= i < j < all.len() implies (#[trigger] all[i]).0 <= (
        #[trigger] all[j]).0 by {
            if j < k {
                assert(rest[i].0 <= rest[j].0);
            } else if j == k {
                assert(rest[i].0 <= last.0);
            } else if i < k {
                assert(rest[i].0 <= rest[j - 1].0);
            } else if i == k {
                assert(rest[k].0 > last.0);
                if j - 1 > k {
                    assert(rest[k].0 <= rest[j - 1].0);
                }
            } else {
                assert(rest[i - 1].0 <= rest[j - 1].0);
            }
        }
    }
}

proof fn lemma_part_place_splits(parts: Parts, partition: u16)
    ensures
        0 <= part_place(parts, partition) <= parts.len(),
        forall|j: int| 0 <= j < part_place(parts, partition) ==> (#[trigger] parts[j]).0 <= partition,
        part_place(parts, partition) < parts.len() ==> parts[part_place(parts, partition)].0
            > partition,
    decreases parts.len(),
{
    if parts.len() > 0 && parts[0].0 <= partition {
        let rest = parts.skip(1);
        lemma_part_place_splits(rest, partition);
        assert forall|j: int| 0 <= j < part_place(parts, partition) implies (#[trigger] parts[j]).0
            <= partition by {
            if j > 0 {
                assert(rest[j - 1] == parts[j]);
            }
        }
        if part_place(rest, partition) < rest.len() {
            assert(rest[part_place(rest, partition)] == parts[part_place(parts, partition)]);
        }
    }
}

} // verus!
