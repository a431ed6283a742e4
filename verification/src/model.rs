//! The internal representation of a model: its objects (placed parts, placed
//! groups, steps, annotations) and its groups of objects, built from LDraw
//! documents.

use std::collections::HashMap;
use vstd::prelude::*;
use vstd::std_specs::iter::IteratorSpec;

use crate::color::{catalog_view, resolved, ColorCatalog, ColorReference, SpecColorReference};
use crate::document::{distinct_names, Document, MultipartDocument};
use crate::elements::{Command, Meta, Placement, Point};
use crate::library::{distinct_keys, find_key, keyed_get};
use crate::number::Decimal;
use crate::PartAlias;

verus! {

/// `Uuid::new_v4().as_u128()`: a random identifier, a version 4 UUID read as
/// a number. Nothing is promised of it but its version and variant bits.
#[verifier::external_body]
fn new_id() -> (r: u128)
    ensures
        r & 0x0000_0000_0000_F000_C000_0000_0000_0000 == 0x0000_0000_0000_4000_8000_0000_0000_0000,
{
    uuid::Uuid::new_v4().as_u128()
}

/// The big-endian bytes of `x`, the most significant first.
pub open spec fn be_bytes(x: u128) -> Seq<u8> {
    Seq::new(16, |i: int| ((x >> (((15 - i) * 8) as u128)) & 0xff) as u8)
}

/// The bytes `b` of a UUID in the order `Uuid::to_bytes_le` gives them: its
/// first three fields reversed, the rest as they are.
pub open spec fn le_field_order(b: Seq<u8>) -> Seq<u8> {
    seq![b[3], b[2], b[1], b[0], b[5], b[4], b[7], b[6], b[8], b[9], b[10], b[11], b[12], b[13], b[14], b[15]]
}

/// The number whose big-endian bytes are `b`.
pub open spec fn from_be(b: Seq<u8>) -> int
    decreases b.len(),
{
    if b.len() == 0 {
        0
    } else {
        from_be(b.drop_last()) * 256 + b.last()
    }
}

/// `Uuid::from_u128(id).to_bytes_le()`: the bytes of the UUID `id` (whose
/// big-endian bytes are those of the number), its first three fields
/// reversed.
#[verifier::external_body]
fn uuid_bytes_le(id: u128) -> (res: [u8; 16])
    ensures
        res@ == le_field_order(be_bytes(id)),
{
    uuid::Uuid::from_u128(id).to_bytes_le()
}

/// `Uuid::from_slice(b)`, read as a number: a UUID exactly when `b` has 16
/// bytes, then the one whose big-endian bytes they are.
#[verifier::external_body]
fn uuid_from_slice(b: &[u8]) -> (res: Option<u128>)
    ensures
        res is Some <==> b@.len() == 16,
        res matches Some(u) ==> u == from_be(b@),
{
    match uuid::Uuid::from_slice(b) {
        Ok(u) => Some(u.as_u128()),
        Err(_) => None,
    }
}

/// The identifier `uuid_xor(a, b)` gives: the UUID whose bytes are those of
/// `a` and of `b`, each in the order `Uuid::to_bytes_le` gives, XORed.
pub open spec fn xor_id(a: u128, b: u128) -> int {
    from_be(Seq::new(16, |i: int| le_field_order(be_bytes(a))[i] ^ le_field_order(be_bytes(b))[i]))
}

proof fn lemma_from_be_zeros(n: nat)
    ensures
        from_be(Seq::new(n, |i: int| 0u8)) == 0,
    decreases n,
{
    if n > 0 {
        assert(Seq::new(n, |i: int| 0u8).drop_last() =~= Seq::new((n - 1) as nat, |i: int| 0u8));
        lemma_from_be_zeros((n - 1) as nat);
    }
}

/// Keying through an identifier and through it again gives the nil
/// identifier, and the order of the two identifiers does not matter.
pub proof fn lemma_xor_id(a: u128, b: u128)
    ensures
        xor_id(a, b) == xor_id(b, a),
        xor_id(a, a) == 0,
{
    let la = le_field_order(be_bytes(a));
    let lb = le_field_order(be_bytes(b));
    assert forall|x: u8, y: u8| #[trigger] (x ^ y) == y ^ x by {
        assert(x ^ y == y ^ x) by (bit_vector);
    }
    assert forall|x: u8| #[trigger] (x ^ x) == 0u8 by {
        assert(x ^ x == 0u8) by (bit_vector);
    }
    assert(Seq::new(16, |i: int| la[i] ^ lb[i]) =~= Seq::new(16, |i: int| lb[i] ^ la[i]));
    assert(Seq::new(16, |i: int| la[i] ^ la[i]) =~= Seq::new(16, |i: int| 0u8));
    lemma_from_be_zeros(16);
}

/// The identifier of an object placed through the object `a`: the bytes of
/// the two identifiers XORed, as `Uuid::to_bytes_le` orders them.
pub fn uuid_xor(a: u128, b: u128) -> (res: u128)
    ensures
        res == xor_id(a, b),
{
    let ba = uuid_bytes_le(a);
    let bb = uuid_bytes_le(b);
    let mut bc: Vec<u8> = Vec::new();
    let mut i: usize = 0;
    while i < 16
        invariant
            i <= 16,
            ba@.len() == 16,
            bb@.len() == 16,
            bc@ =~= Seq::new(i as nat, |j: int| ba@[j] ^ bb@[j]),
        decreases 16 - i,
    {
        bc.push(ba[i] ^ bb[i]);
        i = i + 1;
    }
    assert(bc@ =~= Seq::new(16, |j: int| le_field_order(be_bytes(a))[j] ^ le_field_order(be_bytes(b))[j]));
    match uuid_from_slice(bc.as_slice()) {
        Some(u) => u,
        None => 0,
    }
}

/// A part placed in a colour.
#[derive(Debug)]
pub struct PartInstance {
    pub matrix: Placement,
    pub color: ColorReference,
    pub part: PartAlias,
}

/// A group of objects placed in a colour.
#[derive(Debug)]
pub struct PartGroupInstance {
    pub matrix: Placement,
    pub color: ColorReference,
    pub group_id: u128,
}

/// A note attached to a point.
#[derive(Debug)]
pub struct Annotation {
    pub position: Point,
    pub body: String,
}

/// What an object is.
#[derive(Debug)]
pub enum ObjectInstance {
    Part(PartInstance),
    PartGroup(PartGroupInstance),
    Step,
    Annotation(Annotation),
}

/// An object of a model, with its identifier.
#[derive(Debug)]
pub struct Object {
    pub id: u128,
    pub data: ObjectInstance,
}

/// A named group of objects, placed as a whole.
#[derive(Debug)]
pub struct ObjectGroup {
    pub id: u128,
    pub name: String,
    pub objects: Vec<Object>,
    pub pivot: Point,
}

/// A model: its objects, and the groups that they may place, by identifier.
#[derive(Debug)]
pub struct Model {
    pub object_groups: HashMap<u128, ObjectGroup>,
    pub objects: Vec<Object>,
}

/// What the command `c` becomes in a model whose subparts became the groups
/// `groups` (by name): a reference to a subpart places its group, any other
/// reference places a part, a `STEP` is a step; other commands become
/// nothing.
pub open spec fn object_of(c: Command, groups: Option<Seq<(PartAlias, u128)>>) -> Option<ObjectInstance> {
    match c {
        Command::PartReference(r) => Some(
            match groups {
                Some(g) => match keyed_get(g, r.name) {
                    Some(id) => ObjectInstance::PartGroup(PartGroupInstance { matrix: r.matrix, color: r.color, group_id: id }),
                    None => ObjectInstance::Part(PartInstance { matrix: r.matrix, color: r.color, part: r.name }),
                },
                None => ObjectInstance::Part(PartInstance { matrix: r.matrix, color: r.color, part: r.name }),
            },
        ),
        Command::Meta(Meta::Step) => Some(ObjectInstance::Step),
        _ => None,
    }
}

/// What the commands `cmds` become, in order.
pub open spec fn objects_of(cmds: Seq<Command>, groups: Option<Seq<(PartAlias, u128)>>) -> Seq<ObjectInstance>
    decreases cmds.len(),
{
    if cmds.len() == 0 {
        Seq::empty()
    } else {
        let rest = objects_of(cmds.drop_last(), groups);
        match object_of(cmds.last(), groups) {
            Some(o) => rest.push(o),
            None => rest,
        }
    }
}

/// What the objects are, without their identifiers.
pub open spec fn data_of(objects: Seq<Object>) -> Seq<ObjectInstance> {
    objects.map_values(|o: Object| o.data)
}

/// The view of an optional group list.
pub open spec fn groups_view(groups: Option<&Vec<(PartAlias, u128)>>) -> Option<Seq<(PartAlias, u128)>> {
    match groups {
        Some(g) => Some(g@),
        None => None,
    }
}

/// The objects that the commands of `document` become, each with a fresh
/// identifier.
pub fn build_objects(document: &Document, groups: Option<&Vec<(PartAlias, u128)>>) -> (res: Vec<Object>)
    requires
        groups matches Some(g) ==> distinct_keys(g@),
    ensures
        data_of(res@) == objects_of(document.commands@, groups_view(groups)),
{
    let ghost cmds = document.commands@;
    let ghost gv = groups_view(groups);
    let mut res: Vec<Object> = Vec::new();
    let mut i: usize = 0;
    assert(cmds.subrange(0, 0) =~= Seq::<Command>::empty());
    assert(data_of(res@) =~= Seq::<ObjectInstance>::empty());
    while i < document.commands.len()
        invariant
            i <= cmds.len(),
            cmds == document.commands@,
            gv == groups_view(groups),
            groups matches Some(g) ==> distinct_keys(g@),
            data_of(res@) == objects_of(cmds.subrange(0, i as int), gv),
        decreases cmds.len() - i,
    {
        let ghost prefix = cmds.subrange(0, i + 1);
        assert(prefix.drop_last() =~= cmds.subrange(0, i as int));
        assert(prefix.last() == cmds[i as int]);
        let ghost before = res@;
        match &document.commands[i] {
            Command::PartReference(r) => {
                let data = match groups {
                    Some(g) => match find_key(g, &r.name) {
                        Some(j) => ObjectInstance::PartGroup(
                            PartGroupInstance { matrix: r.matrix.clone(), color: r.color.clone(), group_id: g[j].1 },
                        ),
                        None => ObjectInstance::Part(
                            PartInstance { matrix: r.matrix.clone(), color: r.color.clone(), part: r.name.clone() },
                        ),
                    },
                    None => ObjectInstance::Part(
                        PartInstance { matrix: r.matrix.clone(), color: r.color.clone(), part: r.name.clone() },
                    ),
                };
                res.push(Object { id: new_id(), data });
                assert(data_of(res@) =~= data_of(before).push(res@.last().data));
            },
            Command::Meta(Meta::Step) => {
                res.push(Object { id: new_id(), data: ObjectInstance::Step });
                assert(data_of(res@) =~= data_of(before).push(ObjectInstance::Step));
            },
            _ => {},
        }
        i = i + 1;
    }
    assert(cmds.subrange(0, cmds.len() as int) =~= cmds);
    res
}

/// `after` is `before` with its colour resolved against `colors`, as
/// `ColorReference::resolve_self` does.
pub open spec fn recolored(before: ColorReference, after: ColorReference, colors: Map<u32, crate::color::SpecColor>) -> bool {
    match before@ {
        SpecColorReference::Unresolved(code) => after@ == resolved(code, colors),
        _ => after == before,
    }
}

/// `after` is the object `before` with the colour of its part or group
/// resolved against `colors`.
pub open spec fn object_recolored(before: Object, after: Object, colors: Map<u32, crate::color::SpecColor>) -> bool {
    &&& after.id == before.id
    &&& match (before.data, after.data) {
        (ObjectInstance::Part(b), ObjectInstance::Part(a)) => a.matrix == b.matrix && a.part == b.part && recolored(b.color, a.color, colors),
        (ObjectInstance::PartGroup(b), ObjectInstance::PartGroup(a)) => a.matrix == b.matrix && a.group_id == b.group_id && recolored(b.color, a.color, colors),
        (b, a) => a == b && !(b is Part) && !(b is PartGroup),
    }
}

/// The object with the colour of its part or group resolved.
fn recolor(object: Object, colors: &ColorCatalog) -> (res: Object)
    ensures
        object_recolored(object, res, catalog_view(colors)),
{
    let Object { id, data } = object;
    let data = match data {
        ObjectInstance::Part(mut p) => {
            p.color.resolve_self(colors);
            ObjectInstance::Part(p)
        },
        ObjectInstance::PartGroup(mut g) => {
            g.color.resolve_self(colors);
            ObjectInstance::PartGroup(g)
        },
        other => other,
    };
    Object { id, data }
}

/// Resolves the colours of the parts and groups that `objects` place.
pub fn resolve_colors(objects: &mut Vec<Object>, colors: &ColorCatalog)
    ensures
        final(objects)@.len() == old(objects)@.len(),
        forall|i: int| 0 <= i < old(objects)@.len() ==> object_recolored(#[trigger] old(objects)@[i], final(objects)@[i], catalog_view(colors)),
{
    let ghost all = objects@;
    let mut rest: Vec<Object> = Vec::new();
    std::mem::swap(&mut rest, objects);
    let ghost mut done: int = 0;
    while rest.len() > 0
        invariant
            0 <= done <= all.len(),
            rest@ == all.subrange(done, all.len() as int),
            objects@.len() == done,
            forall|i: int| 0 <= i < done ==> object_recolored(#[trigger] all[i], objects@[i], catalog_view(colors)),
        decreases rest@.len(),
    {
        let o = rest.remove(0);
        assert(o == all[done]);
        objects.push(recolor(o, colors));
        proof {
            done = done + 1;
        }
        assert(rest@ =~= all.subrange(done, all.len() as int));
    }
}

} // verus!

verus! {

/// Whether `document` has edges or faces of its own.
pub open spec fn has_geometry(document: Document) -> bool {
    exists|i: int| 0 <= i < document.commands@.len() && crate::document::is_geometry(#[trigger] document.commands@[i])
}

/// The view of `0 0 0 1 0 0 0 1 0 0 0 1`.
pub open spec fn identity_view() -> Seq<Seq<char>> {
    seq![
        seq!['0'], seq!['0'], seq!['0'],
        seq!['1'], seq!['0'], seq!['0'],
        seq!['0'], seq!['1'], seq!['0'],
        seq!['0'], seq!['0'], seq!['1'],
    ]
}

/// Whether `o` places, unmoved and in the current colour, the part made of
/// the edges and faces of `document` itself (named after the document).
pub open spec fn is_primitives_object(o: ObjectInstance, document: Document) -> bool {
    &&& o matches ObjectInstance::Part(p)
    &&& p.matrix@ == identity_view()
    &&& p.color is Current
    &&& p.part@ == crate::alias_of(document.name@)
}

/// Whether `objects` are the objects that the commands of `document` become
/// (with the groups `groups`), followed by the object that places the
/// document's own edges and faces when it has any.
pub open spec fn objects_built(objects: Seq<Object>, document: Document, groups: Option<Seq<(PartAlias, u128)>>) -> bool {
    let built = objects_of(document.commands@, groups);
    if has_geometry(document) {
        &&& objects.len() == built.len() + 1
        &&& data_of(objects.drop_last()) == built
        &&& is_primitives_object(objects.last().data, document)
    } else {
        data_of(objects) == built
    }
}

/// Whether `group` is the group made of `subpart` under the identifier `id`.
pub open spec fn group_built(group: ObjectGroup, id: u128, subpart: Document, groups: Seq<(PartAlias, u128)>) -> bool {
    &&& group.id == id
    &&& group.name@ == subpart.name@
    &&& data_of(group.objects@) == objects_of(subpart.commands@, Some(groups))
    &&& group.pivot@ == (crate::elements::SpecPoint { x: seq!['0'], y: seq!['0'], z: seq!['0'] })
}

/// Whether `model` is what a model file `document` becomes when its
/// subparts get the identifiers of `groups`: a group for each subpart (a
/// later one winning should two identifiers coincide) and the objects of the
/// main document.
pub open spec fn model_built(model: Model, document: MultipartDocument, groups: Seq<(PartAlias, u128)>) -> bool {
    &&& groups.len() == document.subparts@.len()
    &&& forall|i: int| 0 <= i < groups.len() ==> (#[trigger] groups[i]).0 == document.subparts@[i].0
    &&& forall|id: u128| model.object_groups@.contains_key(id) <==> exists|i: int| 0 <= i < groups.len() && (#[trigger] groups[i]).1 == id
    &&& forall|i: int|
        0 <= i < groups.len() && (forall|j: int| i < j < groups.len() ==> (#[trigger] groups[j]).1 != groups[i].1)
            ==> group_built(model.object_groups@[(#[trigger] groups[i]).1], groups[i].1, document.subparts@[i].1, groups)
    &&& objects_built(model.objects@, document.body, Some(groups))
}

/// The origin.
fn origin() -> (res: Point)
    ensures
        res@ == (crate::elements::SpecPoint { x: seq!['0'], y: seq!['0'], z: seq!['0'] }),
{
    Point { x: Decimal::zero(), y: Decimal::zero(), z: Decimal::zero() }
}

/// The object that places the edges and faces of `document` itself, when
/// it has any.
fn primitives_object(document: &Document) -> (res: Option<Object>)
    ensures
        res is Some == has_geometry(*document),
        res matches Some(o) ==> is_primitives_object(o.data, *document),
{
    if document.has_geometry() {
        let data = ObjectInstance::Part(
            PartInstance { matrix: Placement::identity(), color: ColorReference::Current, part: PartAlias::new(document.name.as_str()) },
        );
        Some(Object { id: new_id(), data })
    } else {
        None
    }
}

/// The edges and faces of `document` alone, as a document of their own (what
/// a model bakes into a part of its own), when it has any.
pub fn extract_document_primitives(document: &Document) -> (res: Option<Document>)
    ensures
        res is Some == has_geometry(*document),
        res matches Some(d) ==> d.name@ == document.name@ && d.description@ == document.description@
            && d.author@ == document.author@ && d.bfc == document.bfc && d.headers@ == document.headers@
            && d.commands@ == document.commands@.filter(|c: Command| crate::document::is_geometry(c)),
{
    if !document.has_geometry() {
        return None;
    }
    let ghost cmds = document.commands@;
    let mut commands: Vec<Command> = Vec::new();
    let mut i: usize = 0;
    assert(cmds.subrange(0, 0).filter(|c: Command| crate::document::is_geometry(c)) =~= Seq::<Command>::empty());
    while i < document.commands.len()
        invariant
            i <= cmds.len(),
            cmds == document.commands@,
            commands@ == cmds.subrange(0, i as int).filter(|c: Command| crate::document::is_geometry(c)),
        decreases cmds.len() - i,
    {
        let ghost prefix = cmds.subrange(0, i + 1);
        assert(prefix.drop_last() =~= cmds.subrange(0, i as int));
        assert(prefix.last() == cmds[i as int]);
        proof {
            reveal(Seq::filter);
        }
        let c = &document.commands[i];
        match c {
            Command::Line(_) | Command::Triangle(_) | Command::Quad(_) | Command::OptionalLine(_) => {
                commands.push(c.clone());
            },
            _ => {},
        }
        i = i + 1;
    }
    assert(cmds.subrange(0, cmds.len() as int) =~= cmds);
    let headers = clone_headers(&document.headers);
    Some(Document {
        name: document.name.clone(),
        description: document.description.clone(),
        author: document.author.clone(),
        bfc: document.bfc,
        headers,
        commands,
    })
}

/// A copy of `headers`.
fn clone_headers(headers: &Vec<crate::elements::Header>) -> (res: Vec<crate::elements::Header>)
    ensures
        res@ == headers@,
{
    let mut res: Vec<crate::elements::Header> = Vec::new();
    let mut i: usize = 0;
    while i < headers.len()
        invariant
            i <= headers@.len(),
            res@ == headers@.subrange(0, i as int),
        decreases headers@.len() - i,
    {
        res.push(headers[i].clone());
        i = i + 1;
        assert(res@ =~= headers@.subrange(0, i as int));
    }
    assert(headers@.subrange(0, i as int) =~= headers@);
    res
}

impl Default for Model {
    /// A model with no groups and no objects.
    fn default() -> (res: Self)
        ensures
            res.object_groups@ == Map::<u128, ObjectGroup>::empty(),
            res.objects@ == Seq::<Object>::empty(),
    {
        Model { object_groups: HashMap::new(), objects: Vec::new() }
    }
}

impl Model {
    /// The model of a single document: its objects, and no groups.
    pub fn from_ldraw_document(document: &Document) -> (res: Model)
        ensures
            res.object_groups@ == Map::<u128, ObjectGroup>::empty(),
            objects_built(res.objects@, *document, None),
    {
        let mut objects = build_objects(document, None);
        let ghost built = objects@;
        if let Some(o) = primitives_object(document) {
            objects.push(o);
            assert(objects@.drop_last() =~= built);
        }
        Model { object_groups: HashMap::new(), objects }
    }

    /// The model of a model file: a group for each subpart, under a fresh
    /// identifier, and the objects of the main document, references to
    /// subparts placing their groups.
    pub fn from_ldraw_multipart_document_sync(document: &MultipartDocument) -> (res: Model)
        requires
            distinct_names(document@.subparts),
        ensures
            exists|groups: Seq<(PartAlias, u128)>| model_built(res, *document, groups),
    {
        broadcast use vstd::std_specs::hash::group_hash_axioms;

        let ghost subs = document.subparts@;
        let mut ids: Vec<(PartAlias, u128)> = Vec::new();
        let mut i: usize = 0;
        while i < document.subparts.len()
            invariant
                i <= subs.len(),
                subs == document.subparts@,
                distinct_names(document@.subparts),
                ids@.len() == i,
                forall|k: int| 0 <= k < i ==> (#[trigger] ids@[k]).0 == subs[k].0,
                distinct_keys(ids@),
            decreases subs.len() - i,
        {
            let ghost before = ids@;
            ids.push((document.subparts[i].0.clone(), new_id()));
            proof {
                assert forall|a: int, b: int| 0 <= a < b < ids@.len() implies (#[trigger] ids@[a]).0.normalized@ != (#[trigger] ids@[b]).0.normalized@ by {
                    assert(document@.subparts[a].0.normalized == subs[a].0.normalized@);
                    assert(document@.subparts[b].0.normalized == subs[b].0.normalized@);
                    if b < before.len() {
                        assert(ids@[b] == before[b]);
                    }
                    assert(ids@[a] == before[a] || a == before.len());
                }
            }
            i = i + 1;
        }
        let ghost g = ids@;
        let mut object_groups: HashMap<u128, ObjectGroup> = HashMap::new();
        let mut i: usize = 0;
        while i < document.subparts.len()
            invariant
                i <= subs.len(),
                subs == document.subparts@,
                g == ids@,
                g.len() == subs.len(),
                distinct_keys(g),
                forall|id: u128| object_groups@.contains_key(id) <==> exists|k: int| 0 <= k < i && (#[trigger] g[k]).1 == id,
                forall|k: int|
                    0 <= k < i && (forall|j: int| k < j < i ==> (#[trigger] g[j]).1 != g[k].1)
                        ==> group_built(object_groups@[(#[trigger] g[k]).1], g[k].1, subs[k].1, g),
            decreases subs.len() - i,
        {
            let id = ids[i].1;
            let subpart = &document.subparts[i].1;
            let group = ObjectGroup { id, name: subpart.name.clone(), objects: build_objects(subpart, Some(&ids)), pivot: origin() };
            let ghost before = object_groups@;
            object_groups.insert(id, group);
            proof {
                assert forall|x: u128| object_groups@.contains_key(x) <==> exists|k: int| 0 <= k < i + 1 && (#[trigger] g[k]).1 == x by {
                    if x == id {
                        assert(g[i as int].1 == x);
                    } else if before.contains_key(x) {
                        let k = choose|k: int| 0 <= k < i && (#[trigger] g[k]).1 == x;
                        assert(0 <= k < i + 1 && g[k].1 == x);
                    }
                }
                assert forall|k: int|
                    0 <= k < i + 1 && (forall|j: int| k < j < i + 1 ==> (#[trigger] g[j]).1 != g[k].1)
                        implies group_built(object_groups@[(#[trigger] g[k]).1], g[k].1, subs[k].1, g) by {
                    if k < i {
                        assert(g[i as int].1 != g[k].1);
                        assert(forall|j: int| k < j < i ==> (#[trigger] g[j]).1 != g[k].1);
                    }
                }
            }
            i = i + 1;
        }
        let mut objects = build_objects(&document.body, Some(&ids));
        let ghost built = objects@;
        if let Some(o) = primitives_object(&document.body) {
            objects.push(o);
            assert(objects@.drop_last() =~= built);
        }
        let res = Model { object_groups, objects };
        assert(model_built(res, *document, g));
        res
    }

    /// Resolves the colours of the parts and groups placed by the model's
    /// objects and by every group.
    pub fn resolve_colors(&mut self, colors: &ColorCatalog)
        ensures
            final(self).objects@.len() == old(self).objects@.len(),
            forall|i: int| 0 <= i < old(self).objects@.len() ==> object_recolored(#[trigger] old(self).objects@[i], final(self).objects@[i], catalog_view(colors)),
            final(self).object_groups@.dom() == old(self).object_groups@.dom(),
            forall|id: u128| #[trigger] old(self).object_groups@.contains_key(id) ==> {
                let (b, a) = (old(self).object_groups@[id], final(self).object_groups@[id]);
                &&& a.id == b.id && a.name == b.name && a.pivot == b.pivot
                &&& a.objects@.len() == b.objects@.len()
                &&& forall|i: int| 0 <= i < b.objects@.len() ==> object_recolored(#[trigger] b.objects@[i], a.objects@[i], catalog_view(colors))
            },
    {
        resolve_colors(&mut self.objects, colors);
        resolve_group_colors(&mut self.object_groups, colors);
    }
}

/// Resolves the colours of the objects of every group.
fn resolve_group_colors(groups: &mut HashMap<u128, ObjectGroup>, colors: &ColorCatalog)
    ensures
        final(groups)@.dom() == old(groups)@.dom(),
        forall|id: u128| #[trigger] old(groups)@.contains_key(id) ==> {
            let (b, a) = (old(groups)@[id], final(groups)@[id]);
            &&& a.id == b.id && a.name == b.name && a.pivot == b.pivot
            &&& a.objects@.len() == b.objects@.len()
            &&& forall|i: int| 0 <= i < b.objects@.len() ==> object_recolored(#[trigger] b.objects@[i], a.objects@[i], catalog_view(colors))
        },
{
    broadcast use vstd::std_specs::hash::group_hash_axioms;

    let ghost start = groups@;
    let mut pending: HashMap<u128, ObjectGroup> = HashMap::new();
    std::mem::swap(&mut pending, groups);
    let keys = collect_keys(&pending);
    let mut i: usize = 0;
    while i < keys.len()
        invariant
            i <= keys@.len(),
            keys@.no_duplicates(),
            keys@.to_set() == start.dom(),
            forall|id: u128| #[trigger] pending@.contains_key(id) <==> (start.contains_key(id) && !keys@.subrange(0, i as int).contains(id)),
            forall|id: u128| #[trigger] pending@.contains_key(id) ==> pending@[id] == start[id],
            forall|id: u128| #[trigger] groups@.contains_key(id) <==> keys@.subrange(0, i as int).contains(id),
            forall|id: u128| #[trigger] groups@.contains_key(id) ==> {
                let (b, a) = (start[id], groups@[id]);
                &&& a.id == b.id && a.name == b.name && a.pivot == b.pivot
                &&& a.objects@.len() == b.objects@.len()
                &&& forall|k: int| 0 <= k < b.objects@.len() ==> object_recolored(#[trigger] b.objects@[k], a.objects@[k], catalog_view(colors))
            },
        decreases keys@.len() - i,
    {
        let id = keys[i];
        assert(keys@.to_set().contains(id));
        assert(!keys@.subrange(0, i as int).contains(id)) by {
            if keys@.subrange(0, i as int).contains(id) {
                let k = choose|k: int| 0 <= k < i && keys@.subrange(0, i as int)[k] == id;
                assert(keys@[k] == keys@[i as int]);
            }
        }
        assert(keys@.subrange(0, i + 1) =~= keys@.subrange(0, i as int).push(id));
        match pending.remove(&id) {
            Some(group) => {
                let ObjectGroup { id: gid, name, mut objects, pivot } = group;
                resolve_colors(&mut objects, colors);
                groups.insert(id, ObjectGroup { id: gid, name, objects, pivot });
            },
            None => {},
        }
        proof {
            let old_done = keys@.subrange(0, i as int);
            let new_done = keys@.subrange(0, i + 1);
            assert forall|x: u128| new_done.contains(x) <==> (old_done.contains(x) || x == id) by {
                if new_done.contains(x) {
                    let k = choose|k: int| 0 <= k < new_done.len() && new_done[k] == x;
                    if k < i {
                        assert(old_done[k] == x);
                    }
                }
                if old_done.contains(x) {
                    let k = choose|k: int| 0 <= k < old_done.len() && old_done[k] == x;
                    assert(new_done[k] == x);
                }
                if x == id {
                    assert(new_done[i as int] == x);
                }
            }
        }
        i = i + 1;
    }
    assert(groups@.dom() =~= start.dom()) by {
        assert(keys@.subrange(0, i as int) =~= keys@);
        assert forall|id: u128| groups@.dom().contains(id) <==> start.dom().contains(id) by {
            assert(keys@.to_set().contains(id) <==> keys@.contains(id));
        }
    }
}

/// The identifiers of `groups`, each once.
fn collect_keys(groups: &HashMap<u128, ObjectGroup>) -> (res: Vec<u128>)
    ensures
        res@.no_duplicates(),
        res@.to_set() == groups@.dom(),
{
    broadcast use vstd::std_specs::hash::group_hash_axioms;

    let mut res: Vec<u128> = Vec::new();
    for k in it: groups.keys()
        invariant
            res@ == it.seq().subrange(0, it.index()).map_values(|r: &u128| *r),
    {
        res.push(*k);
        assert(res@ =~= it.seq().subrange(0, it.index() + 1).map_values(|r: &u128| *r));
    }
    proof {
        let keys = vstd::std_specs::hash::spec_keys_iter(groups).remaining();
        vstd::std_specs::hash::axiom_spec_keys_iter(groups);
        assert(res@ =~= keys.map_values(|r: &u128| *r));
        assert(keys.map_values(|r: &u128| *r) =~= keys.unref());
    }
    res
}

} // verus!

verus! {

/// Whether the object `o` of `model` brings in a dependency on the part
/// named `n`: the part it places, or the dependencies of the group it
/// places (groups looked into at most `fuel` deep).
pub open spec fn object_depends_on(model: Model, o: Object, n: Seq<char>, fuel: nat) -> bool
    decreases fuel, 0nat,
{
    match o.data {
        ObjectInstance::Part(p) => p.part.normalized@ == n,
        ObjectInstance::PartGroup(g) => model.object_groups@.contains_key(g.group_id) && fuel > 0
            && objects_depend_on(model, model.object_groups@[g.group_id].objects@, n, (fuel - 1) as nat),
        _ => false,
    }
}

/// Whether one of `objects` brings in a dependency on the part named `n`.
pub open spec fn objects_depend_on(model: Model, objects: Seq<Object>, n: Seq<char>, fuel: nat) -> bool
    decreases fuel, 1nat,
{
    exists|i: int| 0 <= i < objects.len() && object_depends_on(model, #[trigger] objects[i], n, fuel)
}

/// Following the groups that `objects` place never goes deeper than `fuel`
/// (no group places itself, directly or not).
pub open spec fn groups_bounded(model: Model, objects: Seq<Object>, fuel: nat) -> bool
    decreases fuel,
{
    forall|i: int|
        0 <= i < objects.len() ==> match (#[trigger] objects[i]).data {
            ObjectInstance::PartGroup(g) => model.object_groups@.contains_key(g.group_id) ==> fuel > 0
                && groups_bounded(model, model.object_groups@[g.group_id].objects@, (fuel - 1) as nat),
            _ => true,
        }
}

impl Model {
    /// Collects into `deps` the parts that `objects` depend on.
    fn build_dependencies(&self, deps: &mut Vec<PartAlias>, objects: &Vec<Object>, Ghost(fuel): Ghost<nat>)
        requires
            crate::document::distinct_aliases(old(deps)@),
            groups_bounded(*self, objects@, fuel),
        ensures
            crate::document::distinct_aliases(final(deps)@),
            forall|n: Seq<char>|
                #[trigger] crate::document::alias_names(final(deps)@).contains(n) == (crate::document::alias_names(old(deps)@).contains(n)
                    || objects_depend_on(*self, objects@, n, fuel)),
        decreases fuel,
    {
        broadcast use vstd::std_specs::hash::group_hash_axioms;

        let ghost start = crate::document::alias_names(deps@);
        let mut i: usize = 0;
        while i < objects.len()
            invariant
                i <= objects@.len(),
                groups_bounded(*self, objects@, fuel),
                crate::document::distinct_aliases(deps@),
                forall|n: Seq<char>|
                    #[trigger] crate::document::alias_names(deps@).contains(n) == (start.contains(n)
                        || exists|k: int| 0 <= k < i && object_depends_on(*self, #[trigger] objects@[k], n, fuel)),
            decreases objects@.len() - i,
        {
            let ghost o = objects@[i as int];
            match &objects[i].data {
                ObjectInstance::Part(p) => {
                    crate::document::add_dependency(deps, &p.part);
                },
                ObjectInstance::PartGroup(pg) => {
                    match self.object_groups.get(&pg.group_id) {
                        Some(group) => {
                            assert(groups_bounded(*self, objects@, fuel));
                            assert(match objects@[i as int].data {
                                ObjectInstance::PartGroup(g) => self.object_groups@.contains_key(g.group_id) ==> fuel > 0
                                    && groups_bounded(*self, self.object_groups@[g.group_id].objects@, (fuel - 1) as nat),
                                _ => true,
                            });
                            self.build_dependencies(deps, &group.objects, Ghost((fuel - 1) as nat));
                        },
                        None => {},
                    }
                },
                _ => {},
            }
            proof {
                assert forall|n: Seq<char>|
                    #[trigger] crate::document::alias_names(deps@).contains(n) == (start.contains(n)
                        || exists|k: int| 0 <= k < i + 1 && object_depends_on(*self, #[trigger] objects@[k], n, fuel)) by {
                    if object_depends_on(*self, o, n, fuel) {
                        assert(0 <= i < i + 1 && object_depends_on(*self, objects@[i as int], n, fuel));
                    }
                    if exists|k: int| 0 <= k < i + 1 && object_depends_on(*self, #[trigger] objects@[k], n, fuel) {
                        let k = choose|k: int| 0 <= k < i + 1 && object_depends_on(*self, #[trigger] objects@[k], n, fuel);
                        if k < i {
                            assert(exists|k2: int| 0 <= k2 < i && object_depends_on(*self, #[trigger] objects@[k2], n, fuel));
                        }
                    }
                    if exists|k: int| 0 <= k < i && object_depends_on(*self, #[trigger] objects@[k], n, fuel) {
                        let k = choose|k: int| 0 <= k < i && object_depends_on(*self, #[trigger] objects@[k], n, fuel);
                        assert(0 <= k < i + 1);
                    }
                }
            }
            i = i + 1;
        }
    }

    /// Whether following the groups that `objects` place never goes deeper
    /// than `fuel` (no group places itself, directly or not, within that
    /// depth).
    pub fn groups_bounded_within(&self, objects: &Vec<Object>, fuel: usize) -> (res: bool)
        ensures
            res == groups_bounded(*self, objects@, fuel as nat),
        decreases fuel,
    {
        broadcast use vstd::std_specs::hash::group_hash_axioms;

        let mut i: usize = 0;
        while i < objects.len()
            invariant
                i <= objects@.len(),
                forall|j: int|
                    0 <= j < i ==> match (#[trigger] objects@[j]).data {
                        ObjectInstance::PartGroup(g) => self.object_groups@.contains_key(g.group_id) ==> fuel > 0
                            && groups_bounded(*self, self.object_groups@[g.group_id].objects@, (fuel - 1) as nat),
                        _ => true,
                    },
            decreases objects@.len() - i,
        {
            match &objects[i].data {
                ObjectInstance::PartGroup(g) => {
                    match self.object_groups.get(&g.group_id) {
                        Some(group) => {
                            if fuel == 0 {
                                return false;
                            }
                            if !self.groups_bounded_within(&group.objects, fuel - 1) {
                                return false;
                            }
                        },
                        None => {},
                    }
                },
                _ => {},
            }
            i = i + 1;
        }
        true
    }

    /// The parts that the model depends on, each canonical name once: the
    /// parts its objects place and, for the groups they place, the parts of
    /// those groups.
    pub fn list_dependencies(&self) -> (res: Vec<PartAlias>)
        requires
            groups_bounded(*self, self.objects@, self.object_groups@.len()),
        ensures
            crate::document::distinct_aliases(res@),
            forall|n: Seq<char>| #[trigger] crate::document::alias_names(res@).contains(n)
                == objects_depend_on(*self, self.objects@, n, self.object_groups@.len()),
    {
        let mut result: Vec<PartAlias> = Vec::new();
        assert(crate::document::alias_names(result@) =~= Set::<Seq<char>>::empty());
        self.build_dependencies(&mut result, &self.objects, Ghost(self.object_groups@.len()));
        result
    }
}

} // verus!
