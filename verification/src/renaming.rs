//! Determinism of import: what an import stores depends on the identifiers
//! it is given only as far as the names go. Two imports of one asset store
//! the same resources up to the renaming that takes the identifiers of the
//! first to those of the second.

use vstd::prelude::*;
use crate::gltf::{
    active_graph, imported, import_failure, named, naming, Asset, IdTable, Slot,
};
use crate::integrity::lemma_entries_are_sound;
use crate::store::insert_all;
use crate::resource::{contents, ResourceView, Scene};

verus! {

/// Renaming by `f` and then by `g` is renaming by `f` followed by `g`.
pub proof fn lemma_rename_twice<I, J, K>(
    resource: ResourceView<I>,
    f: spec_fn(I) -> J,
    g: spec_fn(J) -> K,
)
    ensures
        resource.rename(f).rename(g) == resource.rename(|i: I| g(f(i))),
{
    let h = |i: I| g(f(i));
    match resource {
        ResourceView::Animation(a) => {
            assert(a.rename(f).rename(g).channels =~= a.rename(h).channels);
        },
        ResourceView::Mesh(m) => {
            assert(m.rename(f).rename(g).primitives =~= m.rename(h).primitives);
        },
        ResourceView::Skin(s) => {
            assert(s.rename(f).rename(g).joints =~= s.rename(h).joints);
        },
        ResourceView::Node(n) => {
            assert(n.rename(f).rename(g).resources =~= n.rename(h).resources);
        },
        ResourceView::SceneGraph(graph) => {
            assert(graph.rename(f).rename(g).nodes =~= graph.rename(h).nodes);
        },
        _ => {},
    }
}

/// Two renamings that agree on every identifier in a resource rename it to
/// the same resource.
pub proof fn lemma_rename_agrees<I, J>(
    resource: ResourceView<I>,
    f: spec_fn(I) -> J,
    g: spec_fn(I) -> J,
)
    requires
        resource.refs_hold(|i: I| f(i) == g(i)),
    ensures
        resource.rename(f) == resource.rename(g),
{
    let same = |i: I| f(i) == g(i);
    match resource {
        ResourceView::Animation(a) => {
            assert forall|i: int| 0 <= i < a.channels.len() implies #[trigger] a.rename(f).channels[i]
                == a.rename(g).channels[i] by {
                assert(a.channels[i].refs_hold(same));
            }
            assert(a.rename(f).channels =~= a.rename(g).channels);
        },
        ResourceView::Mesh(m) => {
            assert forall|i: int| 0 <= i < m.primitives.len() implies #[trigger] m.rename(
                f,
            ).primitives[i] == m.rename(g).primitives[i] by {
                assert(m.primitives[i].refs_hold(same));
            }
            assert(m.rename(f).primitives =~= m.rename(g).primitives);
        },
        ResourceView::Skin(s) => {
            assert forall|i: int| 0 <= i < s.joints.len() implies #[trigger] s.rename(f).joints[i]
                == s.rename(g).joints[i] by {
                assert(s.joints[i].refs_hold(same));
            }
            assert(s.rename(f).joints =~= s.rename(g).joints);
        },
        ResourceView::Node(n) => {
            assert forall|i: int| 0 <= i < n.resources.len() implies #[trigger] n.rename(
                f,
            ).resources[i] == n.rename(g).resources[i] by {
                assert(same(n.resources[i]));
            }
            assert(n.rename(f).resources =~= n.rename(g).resources);
        },
        ResourceView::SceneGraph(graph) => {
            assert forall|i: int| 0 <= i < graph.nodes.len() implies #[trigger] graph.rename(
                f,
            ).nodes[i] == graph.rename(g).nodes[i] by {
                assert(same(graph.nodes[i]));
            }
            assert(graph.rename(f).nodes =~= graph.rename(g).nodes);
        },
        _ => {},
    }
}

/// Whether a table gives different identifiers to different elements of
/// the asset, and `default` to none.
pub open spec fn names_apart(asset: &Asset, ids: &IdTable) -> bool {
    forall|s: Slot, t: Slot|
        asset.has_slot(s) && asset.has_slot(t) && #[trigger] ids.name(s) == #[trigger] ids.name(t)
            ==> s == t
}

/// The renaming that takes the identifier that `from` gives to an element
/// of the asset to the identifier that `to` gives to it, and leaves every
/// other text alone.
pub open spec fn renaming(asset: &Asset, from: &IdTable, to: &IdTable) -> spec_fn(Seq<char>) -> Seq<
    char,
> {
    |id: Seq<char>|
        if exists|s: Slot| asset.has_slot(s) && #[trigger] from.name(s) == id {
            to.name(choose|s: Slot| asset.has_slot(s) && #[trigger] from.name(s) == id)
        } else {
            id
        }
}

/// Entries with every identifier, as key and inside the resources, replaced
/// by its image under `r`.
pub open spec fn renamed(
    entries: Seq<(Seq<char>, ResourceView<Seq<char>>)>,
    r: spec_fn(Seq<char>) -> Seq<char>,
) -> Seq<(Seq<char>, ResourceView<Seq<char>>)> {
    Seq::new(entries.len(), |n: int| (r(entries[n].0), entries[n].1.rename(r)))
}

/// Import determinism. Two imports of one asset store, in the same order,
/// resources of the same shape and the same numbers: what the second
/// stores is what the first stores with each identifier of the first
/// replaced by the identifier that the second gives to the same element.
pub proof fn lemma_imports_differ_by_renaming(asset: &Asset, first: &IdTable, second: &IdTable)
    requires
        import_failure(asset, first) is None,
        import_failure(asset, second) is None,
        names_apart(asset, first),
    ensures
        named(asset.entries(), second) == renamed(
            named(asset.entries(), first),
            renaming(asset, first, second),
        ),
        asset.scenes@.len() > 0 ==> active_graph(asset, second) == renaming(asset, first, second)(
            active_graph(asset, first),
        ),
{
    let entries = asset.entries();
    let r = renaming(asset, first, second);
    let through_first = |slot: Slot| r(naming(first)(slot));
    lemma_entries_are_sound(asset);
    assert forall|slot: Slot| asset.has_slot(slot) implies through_first(slot) == naming(second)(
        slot,
    ) by {
        let id = first.name(slot);
        let chosen = choose|s: Slot| asset.has_slot(s) && #[trigger] first.name(s) == id;
        assert(first.name(chosen) == first.name(slot));
    }
    assert forall|n: int| 0 <= n < entries.len() implies #[trigger] named(entries, second)[n]
        == renamed(named(entries, first), r)[n] by {
        let shape = entries[n].1;
        lemma_rename_twice(shape, naming(first), r);
        assert(shape.refs_hold(|slot: Slot| asset.has_slot(slot)));
        crate::integrity::lemma_refs_hold_weakens(
            shape,
            |slot: Slot| asset.has_slot(slot),
            |slot: Slot| through_first(slot) == naming(second)(slot),
        );
        lemma_rename_agrees(shape, through_first, naming(second));
        assert(asset.has_slot(entries[n].0));
    }
    assert(named(entries, second) =~= renamed(named(entries, first), r));
    if asset.scenes@.len() > 0 {
        assert(asset.has_slot(Slot::Scene(0)));
    }
}

/// With the same identifiers, two imports of one asset store the same.
pub proof fn lemma_import_is_repeatable(asset: &Asset, ids: &IdTable, first: Scene, second: Scene)
    requires
        import_failure(asset, ids) is None,
        contents(&first.resources) == imported(asset, ids),
        contents(&second.resources) == imported(asset, ids),
        first.active_graph_id@ == active_graph(asset, ids),
        second.active_graph_id@ == active_graph(asset, ids),
    ensures
        contents(&first.resources) == contents(&second.resources),
        first.active_graph_id@ == second.active_graph_id@,
{
}

impl Asset {
    /// The position of the entry that is stored for `slot`.
    pub open spec fn position(&self, slot: Slot) -> int {
        let samplers = self.samplers@.len();
        let images = samplers + self.images@.len();
        let textures = images + self.textures@.len();
        let materials = textures + self.materials@.len();
        let cameras = materials + self.cameras@.len();
        let meshes = cameras + self.meshes@.len();
        let lights = meshes + self.lights@.len();
        let nodes = lights + self.nodes@.len();
        let skins = nodes + self.skins@.len();
        let animations = skins + self.animations@.len();
        match slot {
            Slot::Sampler(i) => i as int,
            Slot::Image(i) => samplers + i,
            Slot::Texture(i) => images + i,
            Slot::Material(i) => textures + i,
            Slot::Camera(i) => materials + i,
            Slot::Mesh(i) => cameras + i,
            Slot::Light(i) => meshes + i,
            Slot::Node(i) => lights + i,
            Slot::Skin(i) => nodes + i,
            Slot::Animation(i) => skins + i,
            Slot::Scene(i) => animations + i,
            Slot::Default => -1,
        }
    }
}

/// Every entry stands at the position of its slot, so no two entries are
/// stored for the same slot.
pub proof fn lemma_entries_stand_at_their_positions(asset: &Asset)
    ensures
        forall|n: int|
            0 <= n < asset.entries().len() ==> asset.position((#[trigger] asset.entries()[n]).0) == n,
{
    assert(asset.samplers@.len() == asset.samplers.len());
    assert(asset.images@.len() == asset.images.len());
    assert(asset.textures@.len() == asset.textures.len());
    assert(asset.materials@.len() == asset.materials.len());
    assert(asset.cameras@.len() == asset.cameras.len());
    assert(asset.meshes@.len() == asset.meshes.len());
    assert(asset.lights@.len() == asset.lights.len());
    assert(asset.nodes@.len() == asset.nodes.len());
    assert(asset.skins@.len() == asset.skins.len());
    assert(asset.animations@.len() == asset.animations.len());
    assert(asset.scenes@.len() == asset.scenes.len());
}

/// A map filled from entries with different keys holds every entry.
pub proof fn lemma_insert_all_keeps_distinct<K, V>(entries: Seq<(K, V)>, n: int)
    requires
        0 <= n < entries.len(),
        forall|i: int, j: int|
            0 <= i < j < entries.len() ==> (#[trigger] entries[i]).0 != (#[trigger] entries[j]).0,
    ensures
        insert_all(Map::<K, V>::empty(), entries).dom().contains(entries[n].0),
        insert_all(Map::<K, V>::empty(), entries)[entries[n].0] == entries[n].1,
    decreases entries.len(),
{
    if n < entries.len() - 1 {
        let init = entries.drop_last();
        assert forall|i: int, j: int| 0 <= i < j < init.len() implies (#[trigger] init[i]).0 != (
        #[trigger] init[j]).0 by {
            assert(init[i] == entries[i]);
            assert(init[j] == entries[j]);
        }
        lemma_insert_all_keeps_distinct(init, n);
        assert(init[n] == entries[n]);
        assert(entries[n].0 != entries[entries.len() - 1].0);
    }
}

/// With identifiers that tell the elements apart, an import stores every
/// element under its own identifier: what the store holds under the
/// identifier of an entry's slot is that entry's resource, named by the
/// table.
pub proof fn lemma_import_stores_every_element(asset: &Asset, ids: &IdTable)
    requires
        import_failure(asset, ids) is None,
        names_apart(asset, ids),
    ensures
        forall|n: int|
            0 <= n < asset.entries().len() ==> {
                let entry = #[trigger] asset.entries()[n];
                &&& imported(asset, ids).dom().contains(ids.name(entry.0))
                &&& imported(asset, ids)[ids.name(entry.0)] == entry.1.rename(naming(ids))
            },
{
    let entries = asset.entries();
    let stored = named(entries, ids);
    lemma_entries_are_sound(asset);
    lemma_entries_stand_at_their_positions(asset);
    assert forall|i: int, j: int| 0 <= i < j < stored.len() implies (#[trigger] stored[i]).0 != (
    #[trigger] stored[j]).0 by {
        assert(asset.has_slot(entries[i].0) && asset.has_slot(entries[j].0));
        assert(asset.position(entries[i].0) != asset.position(entries[j].0));
    }
    assert forall|n: int| 0 <= n < entries.len() implies {
        let entry = #[trigger] entries[n];
        &&& imported(asset, ids).dom().contains(ids.name(entry.0))
        &&& imported(asset, ids)[ids.name(entry.0)] == entry.1.rename(naming(ids))
    } by {
        lemma_insert_all_keeps_distinct(stored, n);
        assert(stored[n] == (ids.name(entries[n].0), entries[n].1.rename(naming(ids))));
    }
}

} // verus!
