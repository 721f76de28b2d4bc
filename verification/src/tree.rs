//! The tree listing: configs grouped under their version's name, each
//! group a header block with one connector line per path.
//!
//! Groups appear in first-seen order of the entry list and paths keep
//! their order inside a group, so the rendering is a function of the
//! entries alone.

use vstd::prelude::*;
use vstd::string::*;

use crate::error::Error;

verus! {

/// `n` spaces.
pub open spec fn spaces_spec(n: nat) -> Seq<char> {
    Seq::new(n, |i: int| ' ')
}

/// One line of a group's body: indentation, a branch connector — the
/// terminal one for the last item (a lone item is also the last) — a
/// space, and the item.
pub open spec fn tree_item_spec(index: int, total: int, shift: nat, item: Seq<char>) -> Seq<
    char,
> {
    spaces_spec(shift) + (if (index == 0 && total == 1) || index == total - 1 {
        "└──"@
    } else {
        "├──"@
    }) + " "@ + item
}

/// The body lines of a group from `idx` on, each terminated by `'\n'`.
pub open spec fn render_items_from(
    paths: Seq<Seq<char>>,
    shift: nat,
    total: int,
    idx: int,
) -> Seq<char>
    decreases paths.len() - idx,
{
    if idx < 0 || idx >= paths.len() {
        Seq::<char>::empty()
    } else {
        tree_item_spec(idx, total, shift, paths[idx]) + "\n"@ + render_items_from(
            paths,
            shift,
            total,
            idx + 1,
        )
    }
}

/// One group: a separator line, the version name, then its body lines,
/// indented one column past the name.
pub open spec fn render_group_spec(name: Seq<char>, paths: Seq<Seq<char>>) -> Seq<char> {
    "================\n"@ + name + "\n"@ + render_items_from(
        paths,
        (name.len() + 1) as nat,
        paths.len() as int,
        0,
    )
}

/// All groups in order.
pub open spec fn render_groups_spec(gs: Seq<(Seq<char>, Seq<Seq<char>>)>) -> Seq<char>
    decreases gs.len(),
{
    if gs.len() == 0 {
        Seq::<char>::empty()
    } else {
        render_group_spec(gs[0].0, gs[0].1) + render_groups_spec(gs.drop_first())
    }
}

/// The first group with this name, or the group count if none has it.
pub open spec fn find_group(gs: Seq<(Seq<char>, Seq<Seq<char>>)>, name: Seq<char>) -> int
    decreases gs.len(),
{
    if gs.len() == 0 {
        0
    } else if gs[0].0 == name {
        0
    } else {
        1 + find_group(gs.drop_first(), name)
    }
}

/// Adds one entry: appends the path to the entry's group, or opens a new
/// group at the end.
pub open spec fn add_entry(
    gs: Seq<(Seq<char>, Seq<Seq<char>>)>,
    name: Seq<char>,
    path: Seq<char>,
) -> Seq<(Seq<char>, Seq<Seq<char>>)> {
    let i = find_group(gs, name);
    if i == gs.len() {
        gs.push((name, seq![path]))
    } else {
        gs.update(i, (name, gs[i].1.push(path)))
    }
}

/// Groups the entries by name, in first-seen order, keeping each group's
/// paths in entry order.
pub open spec fn group_spec(entries: Seq<(Seq<char>, Seq<char>)>) -> Seq<
    (Seq<char>, Seq<Seq<char>>),
>
    decreases entries.len(),
{
    if entries.len() == 0 {
        Seq::<(Seq<char>, Seq<Seq<char>>)>::empty()
    } else {
        add_entry(group_spec(entries.drop_last()), entries.last().0, entries.last().1)
    }
}

/// The whole listing: a fixed notice when there is nothing to list, else
/// every group in first-seen order.
pub open spec fn render_tree_spec(entries: Seq<(Seq<char>, Seq<char>)>) -> Seq<char> {
    if entries.len() == 0 {
        "No configs in db\n"@
    } else {
        render_groups_spec(group_spec(entries))
    }
}

/// The view of collected entries: each a version name and a path.
pub open spec fn entries_view(es: Seq<(String, String)>) -> Seq<(Seq<char>, Seq<char>)> {
    es.map_values(|e: (String, String)| (e.0@, e.1@))
}

/// The view of built groups.
pub open spec fn groups_view(gs: Seq<(String, Vec<String>)>) -> Seq<(Seq<char>, Seq<Seq<char>>)> {
    gs.map_values(|g: (String, Vec<String>)| (g.0@, g.1.deep_view()))
}

/// `find_group` points at the first group with the name, or past the end.
proof fn lemma_find_group(gs: Seq<(Seq<char>, Seq<Seq<char>>)>, name: Seq<char>)
    ensures
        0 <= find_group(gs, name) <= gs.len(),
        find_group(gs, name) < gs.len() ==> gs[find_group(gs, name)].0 == name,
        forall|j: int| 0 <= j < find_group(gs, name) ==> gs[j].0 != name,
    decreases gs.len(),
{
    if gs.len() != 0 && gs[0].0 != name {
        lemma_find_group(gs.drop_first(), name);
        assert forall|j: int| 0 <= j < find_group(gs, name) implies gs[j].0 != name by {
            if j > 0 {
                assert(gs.drop_first()[j - 1] == gs[j]);
                assert(gs.drop_first()[j - 1].0 != name);
            }
        }
    }
}

/// `n` spaces, exactly as `spaces_spec` describes.
fn spaces(n: usize) -> (r: String)
    ensures
        r@ == spaces_spec(n as nat),
{
    let mut out = String::new();
    let mut i: usize = 0;
    proof {
        assert(out@ =~= spaces_spec(0));
    }
    while i < n
        invariant
            i <= n,
            out@ == spaces_spec(i as nat),
        decreases n - i,
    {
        out.append(" ");
        proof {
            reveal_strlit(" ");
            assert(out@ =~= spaces_spec((i + 1) as nat));
        }
        i = i + 1;
    }
    out
}

/// One line of a tree listing's body, exactly as `tree_item_spec`
/// describes: indentation, the connector — terminal for the last item —
/// a space, and the item.
pub fn tree_item(index: usize, total_len: usize, shift_len: usize, item: &str) -> (r: String)
    ensures
        r@ == tree_item_spec(index as int, total_len as int, shift_len as nat, item@),
{
    let mut out = spaces(shift_len);
    if (index == 0 && total_len == 1) || (total_len >= 1 && index == total_len - 1) {
        out.append("└──");
    } else {
        out.append("├──");
    }
    out.append(" ");
    out.append(item);
    proof {
        assert(out@ =~= tree_item_spec(index as int, total_len as int, shift_len as nat, item@));
    }
    out
}

/// Groups entries by version name in first-seen order, exactly as
/// `group_spec` describes.
fn group_entries(entries: &Vec<(String, String)>) -> (r: Vec<(String, Vec<String>)>)
    ensures
        groups_view(r@) == group_spec(entries_view(entries@)),
{
    let mut gs: Vec<(String, Vec<String>)> = Vec::new();
    let mut i: usize = 0;
    proof {
        assert(entries_view(entries@).take(0) =~= Seq::<(Seq<char>, Seq<char>)>::empty());
        assert(groups_view(gs@) =~= group_spec(entries_view(entries@).take(0)));
    }
    while i < entries.len()
        invariant
            i <= entries@.len(),
            groups_view(gs@) == group_spec(entries_view(entries@).take(i as int)),
        decreases entries@.len() - i,
    {
        let ghost pre = groups_view(gs@);
        let ghost ev = entries_view(entries@);
        let name = &entries[i].0;
        let path = &entries[i].1;
        proof {
            lemma_find_group(pre, name@);
        }
        let mut j: usize = 0;
        let mut hit = false;
        while j < gs.len() && !hit
            invariant
                j <= gs@.len(),
                pre == groups_view(gs@),
                hit ==> j < gs@.len() && pre[j as int].0 == name@,
                forall|k: int| 0 <= k < j ==> pre[k].0 != name@,
            decreases gs@.len() - j + (if hit {
                0int
            } else {
                1int
            }),
        {
            if crate::text::str_eq(gs[j].0.as_str(), name.as_str()) {
                hit = true;
            } else {
                j = j + 1;
            }
        }
        proof {
            if hit {
                assert(find_group(pre, name@) == j as int);
            } else {
                assert(j == gs@.len());
                assert(find_group(pre, name@) == pre.len());
            }
        }
        if hit {
            let ghost gs0 = gs@;
            let mut g = gs.remove(j);
            g.1.push(path.clone());
            let ghost gv = (g.0@, g.1.deep_view());
            gs.insert(j, g);
            proof {
                assert(gs@ =~= gs0.update(j as int, (gs@[j as int].0, gs@[j as int].1)));
                assert(gs@[j as int].0@ == gv.0 && gs@[j as int].1.deep_view() == gv.1);
                assert(gv.0 == pre[j as int].0);
                assert(gv.1 =~= pre[j as int].1.push(path@));
                assert(groups_view(gs@) =~= pre.update(
                    j as int,
                    (pre[j as int].0, pre[j as int].1.push(path@)),
                ));
                assert(groups_view(gs@) =~= add_entry(pre, name@, path@));
            }
        } else {
            let mut paths: Vec<String> = Vec::new();
            paths.push(path.clone());
            gs.push((name.clone(), paths));
            proof {
                assert(paths.deep_view() =~= seq![path@]);
                assert(groups_view(gs@) =~= pre.push((name@, seq![path@])));
                assert(groups_view(gs@) =~= add_entry(pre, name@, path@));
            }
        }
        proof {
            assert(ev.take(i + 1).drop_last() =~= ev.take(i as int));
            assert(ev.take(i + 1).last() == ev[i as int]);
            assert(ev[i as int] == (entries@[i as int].0@, entries@[i as int].1@));
            assert(group_spec(ev.take(i + 1)) == add_entry(
                group_spec(ev.take(i as int)),
                name@,
                path@,
            ));
        }
        i = i + 1;
    }
    proof {
        assert(entries_view(entries@).take(entries@.len() as int) =~= entries_view(entries@));
    }
    gs
}

/// Every group's name is the name of one of the grouped entries.
proof fn lemma_group_names_from_entries(es: Seq<(Seq<char>, Seq<char>)>)
    ensures
        forall|j: int|
            0 <= j < group_spec(es).len() ==> exists|i: int|
                0 <= i < es.len() && es[i].0 == (#[trigger] group_spec(es)[j]).0,
    decreases es.len(),
{
    if es.len() > 0 {
        lemma_group_names_from_entries(es.drop_last());
        let prev = group_spec(es.drop_last());
        let name = es.last().0;
        lemma_find_group(prev, name);
        let f = find_group(prev, name);
        assert forall|j: int| 0 <= j < group_spec(es).len() implies exists|i: int|
            0 <= i < es.len() && es[i].0 == (#[trigger] group_spec(es)[j]).0 by {
            if j < prev.len() && j != f {
                assert(group_spec(es)[j] == prev[j]);
                let i = choose|i: int|
                    0 <= i < es.drop_last().len() && es.drop_last()[i].0 == prev[j].0;
                assert(es.drop_last()[i] == es[i]);
                assert(es[i].0 == group_spec(es)[j].0);
            } else {
                assert(group_spec(es)[j].0 == name);
                assert(es[es.len() - 1].0 == name);
            }
        }
    }
}

/// Renders grouped entries, exactly as `render_tree_spec` describes.
/// Success is owed whenever every group name's indentation fits a machine
/// word; the one failure names an entry whose version name is too long
/// for that, which no real store reaches.
#[verifier::loop_isolation(false)]
pub fn build_tree(entries: &Vec<(String, String)>) -> (r: Result<String, Error>)
    ensures
        match r {
            Ok(s) => s@ == render_tree_spec(entries_view(entries@)),
            Err(e) => e == Error::Storage && exists|i: int|
                0 <= i < entries_view(entries@).len() && (#[trigger] entries_view(
                    entries@,
                )[i]).0.len() + 1 > usize::MAX,
        },
{
    if entries.len() == 0 {
        proof {
            assert(entries_view(entries@).len() == 0);
        }
        return Ok("No configs in db\n".to_owned());
    }
    let gs = group_entries(entries);
    let ghost gview = groups_view(gs@);
    proof {
        lemma_group_names_from_entries(entries_view(entries@));
    }
    let mut out = String::new();
    let mut g: usize = 0;
    proof {
        assert(gview.skip(0) =~= gview);
        assert(out@ + render_groups_spec(gview.skip(0)) =~= render_groups_spec(gview));
    }
    while g < gs.len()
        invariant
            g <= gs@.len(),
            gview == groups_view(gs@),
            out@ + render_groups_spec(gview.skip(g as int)) == render_groups_spec(gview),
        decreases gs@.len() - g,
    {
        let ghost out0 = out@;
        let name = &gs[g].0;
        let name_len = name.as_str().unicode_len();
        if name_len == usize::MAX {
            proof {
                let es = entries_view(entries@);
                assert(group_spec(es)[g as int].0 == name@);
                let i = choose|i: int| 0 <= i < es.len() && es[i].0 == group_spec(es)[g as int].0;
                assert(es[i].0.len() + 1 > usize::MAX);
            }
            return Err(Error::Storage);
        }
        let shift: usize = name_len + 1;
        out.append("================\n");
        out.append(name.as_str());
        out.append("\n");
        let paths = &gs[g].1;
        let ghost pview = gview[g as int].1;
        let ghost total = pview.len() as int;
        let ghost base = out@;
        let mut p: usize = 0;
        while p < paths.len()
            invariant
                p <= paths@.len(),
                pview == paths.deep_view(),
                total == pview.len() as int,
                out@ + render_items_from(pview, shift as nat, total, p as int) == base
                    + render_items_from(pview, shift as nat, total, 0),
            decreases paths@.len() - p,
        {
            let line = tree_item(p, paths.len(), shift, paths[p].as_str());
            out.append(line.as_str());
            out.append("\n");
            proof {
                assert(pview[p as int] == paths@[p as int]@);
                assert(render_items_from(pview, shift as nat, total, p as int) == tree_item_spec(
                    p as int,
                    total,
                    shift as nat,
                    pview[p as int],
                ) + "\n"@ + render_items_from(pview, shift as nat, total, p + 1));
                assert(out@ + render_items_from(pview, shift as nat, total, p + 1) =~= base
                    + render_items_from(pview, shift as nat, total, 0));
            }
            p = p + 1;
        }
        proof {
            assert(render_items_from(pview, shift as nat, total, pview.len() as int) =~= Seq::<
                char,
            >::empty());
            assert(out@ =~= base + render_items_from(pview, shift as nat, total, 0));
            assert(out@ =~= out0 + render_group_spec(gview[g as int].0, gview[g as int].1));
            assert(render_groups_spec(gview.skip(g as int)) == render_group_spec(
                gview[g as int].0,
                gview[g as int].1,
            ) + render_groups_spec(gview.skip(g + 1))) by {
                assert(gview.skip(g as int).drop_first() =~= gview.skip(g + 1));
                assert(gview.skip(g as int)[0] == gview[g as int]);
            }
            assert(out@ + render_groups_spec(gview.skip(g + 1)) =~= render_groups_spec(gview));
        }
        g = g + 1;
    }
    proof {
        assert(render_groups_spec(gview.skip(gview.len() as int)) =~= Seq::<char>::empty());
        assert(out@ =~= render_groups_spec(gview));
        assert(entries_view(entries@).len() > 0);
    }
    Ok(out)
}

} // verus!
