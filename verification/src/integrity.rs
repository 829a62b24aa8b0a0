//! Reference integrity of imported stores: every identifier that a stored
//! resource holds is itself a key of the store.

use vstd::prelude::*;
use crate::graph::GraphView;
use crate::gltf::{
    attach, attach_all, imported, import_failure, named, naming, Asset, IdTable, Slot,
};
use crate::store::insert_all;
use crate::resource::ResourceView;

verus! {

/// Whether every identifier inside a stored resource is a key of the store.
/// The one identifier that need not be stored is `default`, which stands
/// for what an asset leaves open.
pub open spec fn references_resolve(store: Map<Seq<char>, ResourceView<Seq<char>>>) -> bool {
    forall|key: Seq<char>| #[trigger]
        store.dom().contains(key) ==> store[key].refs_hold(
            |id: Seq<char>| id == "default"@ || store.dom().contains(id),
        )
}

impl Asset {
    /// Whether `slot` stands for an element of the asset or for the default.
    pub open spec fn has_slot(&self, slot: Slot) -> bool {
        match slot {
            Slot::Sampler(i) => i < self.samplers@.len(),
            Slot::Image(i) => i < self.images@.len(),
            Slot::Texture(i) => i < self.textures@.len(),
            Slot::Material(i) => i < self.materials@.len(),
            Slot::Camera(i) => i < self.cameras@.len(),
            Slot::Mesh(i) => i < self.meshes@.len(),
            Slot::Light(i) => i < self.lights@.len(),
            Slot::Node(i) => i < self.nodes@.len(),
            Slot::Skin(i) => i < self.skins@.len(),
            Slot::Animation(i) => i < self.animations@.len(),
            Slot::Scene(i) => i < self.scenes@.len(),
            Slot::Default => true,
        }
    }

    /// Whether every entry is stored for an element of the asset and refers
    /// to elements of the asset or to the default only.
    pub open spec fn sound(&self, entries: Seq<(Slot, ResourceView<Slot>)>) -> bool {
        forall|n: int|
            0 <= n < entries.len() ==> {
                &&& self.has_slot((#[trigger] entries[n]).0)
                &&& entries[n].0 != Slot::Default
                &&& entries[n].1.refs_hold(|slot: Slot| self.has_slot(slot))
            }
    }
}

/// Whether some entry is stored for `slot`.
pub open spec fn keyed(entries: Seq<(Slot, ResourceView<Slot>)>, slot: Slot) -> bool {
    exists|n: int| 0 <= n < entries.len() && (#[trigger] entries[n]).0 == slot
}

proof fn lemma_keyed_in_concat(
    a: Seq<(Slot, ResourceView<Slot>)>,
    b: Seq<(Slot, ResourceView<Slot>)>,
    slot: Slot,
)
    requires
        keyed(a, slot) || keyed(b, slot),
    ensures
        keyed(a + b, slot),
{
    if keyed(a, slot) {
        let n = choose|n: int| 0 <= n < a.len() && (#[trigger] a[n]).0 == slot;
        assert((a + b)[n] == a[n]);
    } else {
        let n = choose|n: int| 0 <= n < b.len() && (#[trigger] b[n]).0 == slot;
        assert((a + b)[a.len() + n] == b[n]);
    }
}

proof fn lemma_sound_concat(
    asset: &Asset,
    a: Seq<(Slot, ResourceView<Slot>)>,
    b: Seq<(Slot, ResourceView<Slot>)>,
)
    requires
        asset.sound(a),
        asset.sound(b),
    ensures
        asset.sound(a + b),
{
    assert forall|n: int| 0 <= n < (a + b).len() implies {
        &&& asset.has_slot((#[trigger] (a + b)[n]).0)
        &&& (a + b)[n].0 != Slot::Default
        &&& (a + b)[n].1.refs_hold(|slot: Slot| asset.has_slot(slot))
    } by {
        if n < a.len() {
            assert((a + b)[n] == a[n]);
        } else {
            assert((a + b)[n] == b[n - a.len()]);
        }
    }
}

/// Attaching nodes to a graph that names elements of the asset gives a
/// graph that names elements of the asset.
proof fn lemma_attach_names_elements(
    asset: &Asset,
    g: GraphView<Slot>,
    parent: usize,
    node: usize,
    fuel: nat,
)
    requires
        g.refs_hold(|slot: Slot| asset.has_slot(slot)),
        attach(asset.nodes@, g, parent, node, fuel) is Some,
    ensures
        attach(asset.nodes@, g, parent, node, fuel).unwrap().refs_hold(
            |slot: Slot| asset.has_slot(slot),
        ),
    decreases fuel, 0nat, 0nat,
{
    let index = g.nodes.len() as usize;
    let grown = GraphView {
        nodes: g.nodes.push(Slot::Node(node)),
        edges: g.edges.push((parent, index)),
    };
    assert forall|i: int| 0 <= i < grown.nodes.len() implies asset.has_slot(
        #[trigger] grown.nodes[i],
    ) by {
        if i < g.nodes.len() {
            assert(grown.nodes[i] == g.nodes[i]);
        }
    }
    let children = asset.nodes@[node as int].children@;
    lemma_attach_all_names_elements(asset, grown, index, children, children.len(), (fuel - 1) as nat);
}

proof fn lemma_attach_all_names_elements(
    asset: &Asset,
    g: GraphView<Slot>,
    parent: usize,
    children: Seq<usize>,
    n: nat,
    fuel: nat,
)
    requires
        g.refs_hold(|slot: Slot| asset.has_slot(slot)),
        attach_all(asset.nodes@, g, parent, children, n, fuel) is Some,
    ensures
        attach_all(asset.nodes@, g, parent, children, n, fuel).unwrap().refs_hold(
            |slot: Slot| asset.has_slot(slot),
        ),
    decreases fuel, 1nat, n,
{
    if n > 0 {
        lemma_attach_all_names_elements(asset, g, parent, children, (n - 1) as nat, fuel);
        let before = attach_all(asset.nodes@, g, parent, children, (n - 1) as nat, fuel).unwrap();
        lemma_attach_names_elements(asset, before, parent, children[n - 1], fuel);
    }
}

/// Every entry of an asset that can be imported is stored for an element of
/// the asset and refers to elements of the asset or to the default only.
pub proof fn lemma_entries_are_sound(asset: &Asset)
    requires
        asset.failure() is None,
    ensures
        asset.sound(asset.entries()),
{
    let exists_in = |slot: Slot| asset.has_slot(slot);
    assert(asset.sound(asset.sampler_entries()));
    assert(asset.sound(asset.image_entries()));
    assert(asset.sound(asset.texture_entries())) by {
        assert forall|k: int| 0 <= k < asset.textures@.len() implies asset.texture_shape(
            k,
        ).refs_hold(exists_in) by {
            assert(asset.texture_resolves(k));
        }
    }
    assert(asset.sound(asset.material_entries())) by {
        assert forall|k: int| 0 <= k < asset.materials@.len() implies asset.material_shape(
            k,
        ).refs_hold(exists_in) by {
            assert(asset.material_resolves(k));
        }
    }
    assert(asset.sound(asset.camera_entries()));
    assert(asset.sound(asset.mesh_entries())) by {
        assert forall|k: int| 0 <= k < asset.meshes@.len() implies (
        #[trigger] asset.meshes@[k]).shape().refs_hold(exists_in) by {
            assert(asset.mesh_resolves(k));
            let mesh = asset.meshes@[k];
            assert forall|p: int| 0 <= p < mesh.shape().primitives.len() implies (
            #[trigger] mesh.shape().primitives[p]).refs_hold(exists_in) by {
                assert(crate::gltf::in_range(mesh.primitives@[p].material, asset.materials@.len()));
            }
        }
    }
    assert(asset.sound(asset.light_entries()));
    assert(asset.sound(asset.node_entries())) by {
        assert forall|k: int| 0 <= k < asset.nodes@.len() implies (
        #[trigger] asset.nodes@[k]).shape().refs_hold(exists_in) by {
            assert(asset.node_resolves(k));
        }
    }
    assert(asset.sound(asset.skin_entries())) by {
        assert forall|k: int| 0 <= k < asset.skins@.len() implies (
        #[trigger] asset.skins@[k]).shape().refs_hold(exists_in) by {
            assert(asset.skin_resolves(k));
            let skin = asset.skins@[k];
            assert forall|j: int| 0 <= j < skin.shape().joints.len() implies (
            #[trigger] skin.shape().joints[j]).refs_hold(exists_in) by {
                assert(skin.joints@[j] < asset.nodes@.len());
            }
        }
    }
    assert(asset.sound(asset.animation_entries())) by {
        assert forall|k: int| 0 <= k < asset.animations@.len() implies (
        #[trigger] asset.animations@[k]).shape().refs_hold(exists_in) by {
            assert(asset.animation_resolves(k));
            let animation = asset.animations@[k];
            assert forall|c: int| 0 <= c < animation.shape().channels.len() implies (
            #[trigger] animation.shape().channels[c]).refs_hold(exists_in) by {
                assert(animation.channels@[c].target < asset.nodes@.len());
            }
        }
    }
    assert(asset.sound(asset.scene_entries())) by {
        assert forall|k: int| 0 <= k < asset.scenes@.len() implies (#[trigger] asset.scene_shape(
            k,
        )).unwrap().refs_hold(exists_in) by {
            let root = GraphView { nodes: seq![Slot::Scene(k as usize)], edges: Seq::empty() };
            assert(root.refs_hold(exists_in));
            lemma_attach_all_names_elements(
                asset,
                root,
                0,
                asset.scenes@[k].nodes@,
                asset.scenes@[k].nodes@.len(),
                asset.nodes@.len(),
            );
        }
    }
    let e1 = asset.sampler_entries();
    let e2 = e1 + asset.image_entries();
    let e3 = e2 + asset.texture_entries();
    let e4 = e3 + asset.material_entries();
    let e5 = e4 + asset.camera_entries();
    let e6 = e5 + asset.mesh_entries();
    let e7 = e6 + asset.light_entries();
    let e8 = e7 + asset.node_entries();
    let e9 = e8 + asset.skin_entries();
    let e10 = e9 + asset.animation_entries();
    lemma_sound_concat(asset, e1, asset.image_entries());
    lemma_sound_concat(asset, e2, asset.texture_entries());
    lemma_sound_concat(asset, e3, asset.material_entries());
    lemma_sound_concat(asset, e4, asset.camera_entries());
    lemma_sound_concat(asset, e5, asset.mesh_entries());
    lemma_sound_concat(asset, e6, asset.light_entries());
    lemma_sound_concat(asset, e7, asset.node_entries());
    lemma_sound_concat(asset, e8, asset.skin_entries());
    lemma_sound_concat(asset, e9, asset.animation_entries());
    lemma_sound_concat(asset, e10, asset.scene_entries());
}

/// Every element of an asset has an entry.
pub proof fn lemma_every_element_has_an_entry(asset: &Asset, slot: Slot)
    requires
        asset.has_slot(slot),
        slot != Slot::Default,
    ensures
        keyed(asset.entries(), slot),
{
    let c1 = asset.sampler_entries();
    let c2 = asset.image_entries();
    let c3 = asset.texture_entries();
    let c4 = asset.material_entries();
    let c5 = asset.camera_entries();
    let c6 = asset.mesh_entries();
    let c7 = asset.light_entries();
    let c8 = asset.node_entries();
    let c9 = asset.skin_entries();
    let c10 = asset.animation_entries();
    let c11 = asset.scene_entries();
    match slot {
        Slot::Sampler(i) => assert(c1[i as int].0 == slot),
        Slot::Image(i) => assert(c2[i as int].0 == slot),
        Slot::Texture(i) => assert(c3[i as int].0 == slot),
        Slot::Material(i) => assert(c4[i as int].0 == slot),
        Slot::Camera(i) => assert(c5[i as int].0 == slot),
        Slot::Mesh(i) => assert(c6[i as int].0 == slot),
        Slot::Light(i) => assert(c7[i as int].0 == slot),
        Slot::Node(i) => assert(c8[i as int].0 == slot),
        Slot::Skin(i) => assert(c9[i as int].0 == slot),
        Slot::Animation(i) => assert(c10[i as int].0 == slot),
        Slot::Scene(i) => assert(c11[i as int].0 == slot),
        Slot::Default => {},
    }
    let e1 = c1;
    let e2 = e1 + c2;
    let e3 = e2 + c3;
    let e4 = e3 + c4;
    let e5 = e4 + c5;
    let e6 = e5 + c6;
    let e7 = e6 + c7;
    let e8 = e7 + c8;
    let e9 = e8 + c9;
    let e10 = e9 + c10;
    if keyed(e1, slot) || keyed(c2, slot) {
        lemma_keyed_in_concat(e1, c2, slot);
    }
    if keyed(e2, slot) || keyed(c3, slot) {
        lemma_keyed_in_concat(e2, c3, slot);
    }
    if keyed(e3, slot) || keyed(c4, slot) {
        lemma_keyed_in_concat(e3, c4, slot);
    }
    if keyed(e4, slot) || keyed(c5, slot) {
        lemma_keyed_in_concat(e4, c5, slot);
    }
    if keyed(e5, slot) || keyed(c6, slot) {
        lemma_keyed_in_concat(e5, c6, slot);
    }
    if keyed(e6, slot) || keyed(c7, slot) {
        lemma_keyed_in_concat(e6, c7, slot);
    }
    if keyed(e7, slot) || keyed(c8, slot) {
        lemma_keyed_in_concat(e7, c8, slot);
    }
    if keyed(e8, slot) || keyed(c9, slot) {
        lemma_keyed_in_concat(e8, c9, slot);
    }
    if keyed(e9, slot) || keyed(c10, slot) {
        lemma_keyed_in_concat(e9, c10, slot);
    }
    if keyed(e10, slot) || keyed(c11, slot) {
        lemma_keyed_in_concat(e10, c11, slot);
    }
}

/// A map filled from entries holds every entry's key, and holds under each
/// of its keys the value of some entry with that key.
pub proof fn lemma_insert_all_holds_entries<K, V>(entries: Seq<(K, V)>)
    ensures
        forall|n: int|
            0 <= n < entries.len() ==> insert_all(Map::<K, V>::empty(), entries).dom().contains(
                (#[trigger] entries[n]).0,
            ),
        forall|key: K| #[trigger]
            insert_all(Map::<K, V>::empty(), entries).dom().contains(key) ==> exists|n: int|
                0 <= n < entries.len() && #[trigger] entries[n] == (
                    key,
                    insert_all(Map::<K, V>::empty(), entries)[key],
                ),
    decreases entries.len(),
{
    let filled = insert_all(Map::<K, V>::empty(), entries);
    if entries.len() > 0 {
        let init = entries.drop_last();
        let before = insert_all(Map::<K, V>::empty(), init);
        lemma_insert_all_holds_entries(init);
        assert forall|n: int| 0 <= n < entries.len() implies filled.dom().contains(
            (#[trigger] entries[n]).0,
        ) by {
            if n < init.len() {
                assert(init[n] == entries[n]);
            }
        }
        assert forall|key: K| #[trigger] filled.dom().contains(key) implies exists|n: int|
            0 <= n < entries.len() && #[trigger] entries[n] == (key, filled[key]) by {
            if key == entries.last().0 {
                assert(entries[entries.len() - 1] == (key, filled[key]));
            } else {
                assert(before.dom().contains(key));
                let n = choose|n: int| 0 <= n < init.len() && #[trigger] init[n] == (key, before[key]);
                assert(entries[n] == (key, filled[key]));
            }
        }
    }
}

/// What holds of every identifier in a resource holds in any weaker form
/// too.
pub proof fn lemma_refs_hold_weakens<I>(
    resource: ResourceView<I>,
    p: spec_fn(I) -> bool,
    q: spec_fn(I) -> bool,
)
    requires
        resource.refs_hold(p),
        forall|i: I| #[trigger] p(i) ==> q(i),
    ensures
        resource.refs_hold(q),
{
    match resource {
        ResourceView::Animation(a) => {
            assert forall|i: int| 0 <= i < a.channels.len() implies (#[trigger] a.channels[i]).refs_hold(
                q,
            ) by {
                assert(a.channels[i].refs_hold(p));
            }
        },
        ResourceView::Mesh(m) => {
            assert forall|i: int| 0 <= i < m.primitives.len() implies (
            #[trigger] m.primitives[i]).refs_hold(q) by {
                assert(m.primitives[i].refs_hold(p));
            }
        },
        ResourceView::Skin(s) => {
            assert forall|i: int| 0 <= i < s.joints.len() implies (#[trigger] s.joints[i]).refs_hold(
                q,
            ) by {
                assert(s.joints[i].refs_hold(p));
            }
        },
        ResourceView::Node(n) => {
            assert forall|i: int| 0 <= i < n.resources.len() implies q(#[trigger] n.resources[i]) by {
                assert(p(n.resources[i]));
            }
        },
        ResourceView::SceneGraph(g) => {
            assert forall|i: int| 0 <= i < g.nodes.len() implies q(#[trigger] g.nodes[i]) by {
                assert(p(g.nodes[i]));
            }
        },
        _ => {},
    }
}

/// Reference integrity: in the store of a successful import, every
/// identifier that a resource holds is a key of the store, or is `default`.
/// This holds whatever the identifiers are, even where some coincide.
pub proof fn lemma_import_references_resolve(asset: &Asset, ids: &IdTable)
    requires
        import_failure(asset, ids) is None,
    ensures
        references_resolve(imported(asset, ids)),
{
    let entries = asset.entries();
    let stored = named(entries, ids);
    let store = imported(asset, ids);
    let resolves = |id: Seq<char>| id == "default"@ || store.dom().contains(id);
    let named_resolves = |slot: Slot| resolves(naming(ids)(slot));
    let exists_in = |slot: Slot| asset.has_slot(slot);
    lemma_entries_are_sound(asset);
    lemma_insert_all_holds_entries(stored);
    assert forall|slot: Slot| #[trigger] exists_in(slot) implies named_resolves(slot) by {
        if slot != Slot::Default {
            lemma_every_element_has_an_entry(asset, slot);
            let n = choose|n: int| 0 <= n < entries.len() && (#[trigger] entries[n]).0 == slot;
            assert(stored[n].0 == ids.name(slot));
        }
    }
    assert forall|key: Seq<char>| #[trigger] store.dom().contains(key) implies store[key].refs_hold(
        resolves,
    ) by {
        let n = choose|n: int| 0 <= n < stored.len() && #[trigger] stored[n] == (key, store[key]);
        let shape = entries[n].1;
        assert(store[key] == shape.rename(naming(ids)));
        assert(shape.refs_hold(exists_in));
        lemma_refs_hold_weakens(shape, exists_in, named_resolves);
        shape.lemma_renamed_refs(naming(ids), resolves);
        assert(shape.refs_hold(|slot: Slot| resolves(naming(ids)(slot))));
    }
}

/// The store of a successful import holds the identifier of every element
/// of the asset; among them, where the asset has a scene, the identifier of
/// the graph to show.
pub proof fn lemma_import_stores_every_identifier(asset: &Asset, ids: &IdTable)
    requires
        import_failure(asset, ids) is None,
    ensures
        forall|slot: Slot|
            asset.has_slot(slot) && slot != Slot::Default ==> imported(asset, ids).dom().contains(
                #[trigger] ids.name(slot),
            ),
        asset.scenes@.len() > 0 ==> imported(asset, ids).dom().contains(
            crate::gltf::active_graph(asset, ids),
        ),
{
    let entries = asset.entries();
    let stored = named(entries, ids);
    lemma_insert_all_holds_entries(stored);
    assert forall|slot: Slot| asset.has_slot(slot) && slot != Slot::Default implies imported(
        asset,
        ids,
    ).dom().contains(#[trigger] ids.name(slot)) by {
        lemma_every_element_has_an_entry(asset, slot);
        let n = choose|n: int| 0 <= n < entries.len() && (#[trigger] entries[n]).0 == slot;
        assert(stored[n].0 == ids.name(slot));
    }
    if asset.scenes@.len() > 0 {
        assert(asset.has_slot(Slot::Scene(0)));
    }
}

} // verus!
