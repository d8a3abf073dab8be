//! Whether scenes that activate scenes ever end.

use vstd::prelude::*;

use crate::causality::{ends, ends_in, lemma_more_levels, member_ends_in};
use crate::ids::SceneId;
use crate::model::{command_views, Command, CommandV};
use crate::table::Table;

verus! {

/// The members of every scene.
pub open spec fn scene_lists(m: Map<SceneId, Vec<Command>>) -> Map<SceneId, Seq<CommandV>> {
    m.map_values(|cs: Vec<Command>| command_views(cs@))
}

/// Whether a command activates, if anything, a scene that is not there or is settled.
spec fn leads_on(
    scenes: Map<SceneId, Seq<CommandV>>,
    settled: Map<SceneId, bool>,
    cmd: CommandV,
) -> bool {
    match cmd {
        CommandV::ActivateScene { scene } => !scenes.contains_key(scene) || settled.contains_key(
            scene,
        ),
        _ => true,
    }
}

spec fn all_lead_on(
    scenes: Map<SceneId, Seq<CommandV>>,
    settled: Map<SceneId, bool>,
    cmds: Seq<CommandV>,
) -> bool {
    forall|i: int| 0 <= i < cmds.len() ==> leads_on(scenes, settled, #[trigger] cmds[i])
}

/// Every settled scene is there, and ends.
spec fn sound(
    scenes: Map<SceneId, Seq<CommandV>>,
    settled: Map<SceneId, bool>,
    levels: nat,
) -> bool {
    forall|s: SceneId| #[trigger]
        settled.contains_key(s) ==> scenes.contains_key(s) && ends_in(scenes, s, levels)
}

/// A scene that only activates settled ones can be settled next.
proof fn lemma_settle(
    scenes: Map<SceneId, Seq<CommandV>>,
    settled: Map<SceneId, bool>,
    levels: nat,
    s: SceneId,
)
    requires
        sound(scenes, settled, levels),
        scenes.contains_key(s),
        all_lead_on(scenes, settled, scenes[s]),
    ensures
        sound(scenes, settled.insert(s, true), levels + 1),
{
    assert forall|i: int| 0 <= i < scenes[s].len() implies member_ends_in(
        scenes,
        #[trigger] scenes[s][i],
        levels,
    ) by {
        assert(leads_on(scenes, settled, scenes[s][i]));
    }
    let after = settled.insert(s, true);
    assert forall|t: SceneId| #[trigger] after.contains_key(t) implies scenes.contains_key(t)
        && ends_in(scenes, t, levels + 1) by {
        if t != s {
            assert(settled.contains_key(t));
            lemma_more_levels(scenes, t, levels, levels + 1);
        }
    }
}

/// Where no further scene can be settled, every scene that ends is settled.
proof fn lemma_stuck(
    scenes: Map<SceneId, Seq<CommandV>>,
    settled: Map<SceneId, bool>,
    levels: nat,
    s: SceneId,
)
    requires
        scenes.contains_key(s),
        ends_in(scenes, s, levels),
        forall|t: SceneId| #[trigger]
            scenes.contains_key(t) && !settled.contains_key(t) ==> !all_lead_on(
                scenes,
                settled,
                scenes[t],
            ),
    ensures
        settled.contains_key(s),
    decreases levels,
{
    if !settled.contains_key(s) {
        assert(!all_lead_on(scenes, settled, scenes[s]));
        let i = choose|i: int|
            0 <= i < scenes[s].len() && !leads_on(scenes, settled, #[trigger] scenes[s][i]);
        assert(member_ends_in(scenes, scenes[s][i], (levels - 1) as nat));
        match scenes[s][i] {
            CommandV::ActivateScene { scene } => {
                lemma_stuck(scenes, settled, (levels - 1) as nat, scene);
            },
            _ => {},
        }
    }
}

fn lead_on(
    scenes: &Table<SceneId, Vec<Command>>,
    settled: &Table<SceneId, bool>,
    cmds: &Vec<Command>,
) -> (r: bool)
    ensures
        r == all_lead_on(scene_lists(scenes@), settled@, command_views(cmds@)),
{
    let ghost all = command_views(cmds@);
    let mut i: usize = 0;
    while i < cmds.len()
        invariant
            i <= cmds@.len(),
            all == command_views(cmds@),
            forall|j: int|
                0 <= j < i ==> leads_on(scene_lists(scenes@), settled@, #[trigger] all[j]),
        decreases cmds@.len() - i,
    {
        assert(all[i as int] == cmds@[i as int]@);
        if let Command::ActivateScene { scene } = &cmds[i] {
            if scenes.contains_key(scene) && !settled.contains_key(scene) {
                assert(!leads_on(scene_lists(scenes@), settled@, all[i as int]));
                return false;
            }
        }
        i += 1;
    }
    true
}

proof fn lemma_no_more_keys(a: Seq<SceneId>, b: Seq<SceneId>)
    requires
        a.no_duplicates(),
        b.no_duplicates(),
        forall|k: SceneId| #[trigger] a.contains(k) ==> b.contains(k),
    ensures
        a.len() <= b.len(),
{
    a.unique_seq_to_set();
    b.unique_seq_to_set();
    assert(a.to_set().subset_of(b.to_set())) by {
        assert forall|k: SceneId| a.to_set().contains(k) implies b.to_set().contains(k) by {
            assert(a.contains(k));
        }
    }
    vstd::set_lib::lemma_len_subset(a.to_set(), b.to_set());
}

/// The scenes whose expansion ends.
fn settle(scenes: &Table<SceneId, Vec<Command>>) -> (settled: Table<SceneId, bool>)
    ensures
        forall|s: SceneId| #[trigger]
            settled@.contains_key(s) <==> scenes@.contains_key(s) && ends(
                scene_lists(scenes@),
                s,
            ),
{
    let ghost lists = scene_lists(scenes@);
    let n: usize = scenes.len();
    let mut settled: Table<SceneId, bool> = Table::new();
    let mut known: usize = settled.len();
    let ghost mut levels: nat = 0;
    let mut more = true;
    while more
        invariant
            lists == scene_lists(scenes@),
            n == scenes.order().len(),
            scenes.order().no_duplicates(),
            forall|k: SceneId| #[trigger] scenes@.contains_key(k) <==> scenes.order().contains(k),
            known == settled.order().len(),
            known <= n,
            sound(lists, settled@, levels),
            !more ==> forall|k: int|
                0 <= k < n ==> settled@.contains_key(#[trigger] scenes.order()[k])
                    || !all_lead_on(lists, settled@, lists[scenes.order()[k]]),
        decreases n - known, if more { 1int } else { 0int },
    {
        let mut i: usize = 0;
        more = false;
        while i < n
            invariant
                i <= n,
                lists == scene_lists(scenes@),
                n == scenes.order().len(),
                scenes.order().no_duplicates(),
                forall|k: SceneId| #[trigger]
                    scenes@.contains_key(k) <==> scenes.order().contains(k),
                sound(lists, settled@, levels),
                known <= settled.order().len() <= n,
                more ==> known < settled.order().len(),
                !more ==> settled.order().len() == known,
                !more ==> forall|k: int|
                    0 <= k < i ==> settled@.contains_key(#[trigger] scenes.order()[k])
                        || !all_lead_on(lists, settled@, lists[scenes.order()[k]]),
            decreases n - i,
        {
            let (scene, cmds) = scenes.at(i);
            assert(lists[scenes.order()[i as int]] == command_views(cmds@));
            if !settled.contains_key(scene) && lead_on(scenes, &settled, cmds) {
                let id = *scene;
                proof {
                    lemma_settle(lists, settled@, levels, id);
                    levels = levels + 1;
                }
                settled.insert(id, true);
                let count: usize = settled.len();
                proof {
                    assert forall|k: SceneId| #[trigger] settled.order().contains(k) implies
                        scenes.order().contains(k) by {
                        assert(settled@.contains_key(k));
                        assert(lists.contains_key(k));
                        assert(scenes@.contains_key(k));
                    }
                    lemma_no_more_keys(settled.order(), scenes.order());
                }
                more = true;
            }
            i += 1;
        }
        known = settled.len();
    }
    proof {
        assert forall|t: SceneId| #[trigger]
            lists.contains_key(t) && !settled@.contains_key(t) implies !all_lead_on(
            lists,
            settled@,
            lists[t],
        ) by {
            assert(scenes@.contains_key(t));
            let k = scenes.order().index_of(t);
            assert(scenes.order()[k] == t);
        }
        assert forall|s: SceneId| #[trigger]
            settled@.contains_key(s) <==> scenes@.contains_key(s) && ends(lists, s) by {
            if settled@.contains_key(s) {
                assert(ends_in(lists, s, levels));
                assert(lists.contains_key(s));
            }
            if scenes@.contains_key(s) && ends(lists, s) {
                let enough = choose|enough: nat| #[trigger] ends_in(lists, s, enough);
                assert(lists.contains_key(s));
                lemma_stuck(lists, settled@, enough, s);
            }
        }
    }
    settled
}

/// Whether the expansion of a scene ends.
pub(crate) fn scene_ends(scenes: &Table<SceneId, Vec<Command>>, scene: SceneId) -> (r: bool)
    requires
        scenes@.contains_key(scene),
    ensures
        r == ends(scene_lists(scenes@), scene),
{
    let settled = settle(scenes);
    settled.contains_key(&scene)
}

/// Whether no scene activates itself, directly or through others.
pub(crate) fn all_end(scenes: &Table<SceneId, Vec<Command>>) -> (r: bool)
    ensures
        r == (forall|s: SceneId| #[trigger]
            scene_lists(scenes@).contains_key(s) ==> ends(scene_lists(scenes@), s)),
{
    let ghost lists = scene_lists(scenes@);
    let settled = settle(scenes);
    let n: usize = scenes.len();
    let mut j: usize = 0;
    while j < n
        invariant
            j <= n,
            lists == scene_lists(scenes@),
            n == scenes.order().len(),
            forall|k: SceneId| #[trigger] scenes@.contains_key(k) <==> scenes.order().contains(k),
            forall|s: SceneId| #[trigger]
                settled@.contains_key(s) <==> scenes@.contains_key(s) && ends(lists, s),
            forall|k: int| 0 <= k < j ==> settled@.contains_key(#[trigger] scenes.order()[k]),
        decreases n - j,
    {
        let (scene, _) = scenes.at(j);
        if !settled.contains_key(scene) {
            proof {
                assert(scenes.order().contains(scenes.order()[j as int]));
                assert(lists.contains_key(*scene));
            }
            return false;
        }
        j += 1;
    }
    proof {
        assert forall|s: SceneId| #[trigger] lists.contains_key(s) implies ends(lists, s) by {
            assert(scenes@.contains_key(s));
            let k = scenes.order().index_of(s);
            assert(scenes.order()[k] == s);
        }
    }
    true
}

} // verus!
