//! The application state as JSON, for the remote agent.

use crate::json::{law_members_are_found_by_name, obj2, Json, JsonV, Members};
use crate::mcp_args::{kind_json, kind_to_json};
use crate::memory::{perms_text, regions_view, Region, RegionV};
use crate::node::{capped, ClassId};
use crate::processes::{procs_view, ProcInfo, ProcInfoV};
use crate::registry::{class_at, list_bytes, ClassRegistry, ClassV, RegistryV};
use crate::rows::{Row, RowV};
use vstd::prelude::*;

verus! {

/// A class in the list of classes.
pub open spec fn class_entry(v: RegistryV, c: ClassV) -> JsonV {
    JsonV::Obj(
        seq![
            ("id"@, JsonV::num(c.id as nat)),
            ("name"@, JsonV::Str(c.name)),
            ("size"@, JsonV::num(capped(v.class_bytes(c.id)) as nat)),
            ("fields"@, JsonV::num(c.nodes.len())),
        ],
    )
}

/// Every class: id, name, byte size, field count.
pub open spec fn classes_of(v: RegistryV) -> JsonV {
    JsonV::Arr(Seq::new(v.classes.len(), |i: int| class_entry(v, v.classes[i])))
}

/// [`classes_of`] the registry.
pub fn classes_json(reg: &ClassRegistry) -> (r: Json)
    requires
        reg@.wf(),
    ensures
        r@ == classes_of(reg@),
{
    let ghost v = reg@;
    let mut out: Vec<Json> = Vec::new();
    let mut i: usize = 0;
    while i < reg.classes.len()
        invariant
            v == reg@,
            v.wf(),
            i <= reg.classes@.len(),
            out@.len() == i,
            forall|k: int| 0 <= k < i ==> (#[trigger] out@[k])@ == class_entry(v, v.classes[k]),
        decreases reg.classes@.len() - i,
    {
        let c = &reg.classes[i];
        let mut m = Members::new();
        m.put("id", Json::num(c.id as u64));
        m.put("name", Json::text(c.name.as_str()));
        m.put("size", Json::num(reg.size_of(c.id) as u64));
        m.put("fields", Json::num(c.nodes.len() as u64));
        let j = m.done();
        proof {
            assert(v.classes[i as int] == c@);
            assert(j@->Obj_0 =~= class_entry(v, c@)->Obj_0);
        }
        out.push(j);
        i = i + 1;
    }
    let r = Json::array(out);
    proof {
        assert(r@->Arr_0 =~= classes_of(v)->Arr_0);
    }
    r
}

/// Field `i` of class `id`.
pub open spec fn node_entry(v: RegistryV, id: ClassId, i: int) -> JsonV {
    let n = v.nodes(id)[i];
    JsonV::Obj(
        seq![
            ("index"@, JsonV::num(i as nat)),
            ("name"@, JsonV::Str(n.name)),
            ("comment"@, JsonV::Str(n.comment)),
            ("kind"@, kind_json(n.kind)),
            (
                "offset"@,
                JsonV::num(
                    capped(
                        list_bytes(
                            v.classes,
                            v.pointer_bytes,
                            v.nodes(id).take(i),
                            v.classes.len(),
                        ),
                    ) as nat,
                ),
            ),
        ],
    )
}

/// The full definition of class `id`.
pub open spec fn class_of(v: RegistryV, id: ClassId) -> JsonV {
    let c = class_at(v.classes, id);
    JsonV::Obj(
        seq![
            ("id"@, JsonV::num(id as nat)),
            ("name"@, JsonV::Str(c.name)),
            ("address_expr"@, JsonV::Str(c.address_expr)),
            ("size"@, JsonV::num(capped(v.class_bytes(id)) as nat)),
            ("nodes"@, JsonV::Arr(Seq::new(c.nodes.len(), |i: int| node_entry(v, id, i)))),
        ],
    )
}

/// [`class_of`] the registry, if there is such a class.
pub fn class_json(reg: &ClassRegistry, id: ClassId) -> (r: Option<Json>)
    requires
        reg@.wf(),
    ensures
        r is Some == reg@.has(id),
        r is Some ==> (r->0)@ == class_of(reg@, id),
{
    let ghost v = reg@;
    let class = match reg.get(id) {
        Some(c) => c,
        None => {
            return None;
        },
    };
    let offs = reg.offsets(id);
    let mut nodes: Vec<Json> = Vec::new();
    let mut i: usize = 0;
    while i < class.nodes.len()
        invariant
            v == reg@,
            v.has(id),
            class@ == class_at(v.classes, id),
            i <= class.nodes@.len(),
            offs@.len() == v.nodes(id).len(),
            forall|k: int|
                0 <= k < offs@.len() ==> #[trigger] offs@[k] == capped(
                    list_bytes(
                        v.classes,
                        v.pointer_bytes,
                        v.nodes(id).take(k),
                        v.classes.len(),
                    ),
                ),
            nodes@.len() == i,
            forall|k: int| 0 <= k < i ==> (#[trigger] nodes@[k])@ == node_entry(v, id, k),
        decreases class.nodes@.len() - i,
    {
        let n = &class.nodes[i];
        let mut m = Members::new();
        m.put("index", Json::num(i as u64));
        m.put("name", Json::text(n.name.as_str()));
        m.put("comment", Json::text(n.comment.as_str()));
        m.put("kind", kind_to_json(&n.kind));
        m.put("offset", Json::num(offs[i] as u64));
        let j = m.done();
        proof {
            assert(v.nodes(id)[i as int] == n@);
            assert(j@->Obj_0 =~= node_entry(v, id, i as int)->Obj_0);
        }
        nodes.push(j);
        i = i + 1;
    }
    let list = Json::array(nodes);
    let mut m = Members::new();
    m.put("id", Json::num(id as u64));
    m.put("name", Json::text(class.name.as_str()));
    m.put("address_expr", Json::text(class.address_expr.as_str()));
    m.put("size", Json::num(reg.size_of(id) as u64));
    m.put("nodes", list);
    let r = m.done();
    proof {
        assert(list@->Arr_0 =~= Seq::new(
            class_at(v.classes, id).nodes.len(),
            |i: int| node_entry(v, id, i),
        ));
        assert(r@->Obj_0 =~= class_of(v, id)->Obj_0);
    }
    Some(r)
}

/// A mapped region.
pub open spec fn region_entry(r: RegionV) -> JsonV {
    JsonV::Obj(
        seq![
            ("start"@, JsonV::num(r.start as nat)),
            ("end"@, JsonV::num(r.end as nat)),
            ("perms"@, JsonV::Str(perms_text(r.perms))),
            ("path"@, JsonV::text_or_null(r.path)),
        ],
    )
}

/// Every mapped region.
pub open spec fn regions_of(rs: Seq<RegionV>) -> JsonV {
    JsonV::Arr(Seq::new(rs.len(), |i: int| region_entry(rs[i])))
}

/// [`regions_of`] the list.
pub fn regions_json(regions: &Vec<Region>) -> (r: Json)
    ensures
        r@ == regions_of(regions_view(regions@)),
{
    let ghost rs = regions_view(regions@);
    let mut out: Vec<Json> = Vec::new();
    let mut i: usize = 0;
    while i < regions.len()
        invariant
            rs == regions_view(regions@),
            i <= regions@.len(),
            out@.len() == i,
            forall|k: int| 0 <= k < i ==> (#[trigger] out@[k])@ == region_entry(rs[k]),
        decreases regions@.len() - i,
    {
        let g = &regions[i];
        let mut m = Members::new();
        m.put("start", Json::num(g.start));
        m.put("end", Json::num(g.end));
        m.put("perms", Json::text(g.perms.text().as_str()));
        m.put("path", Json::text_or_null(&g.path));
        let j = m.done();
        proof {
            assert(rs[i as int] == g@);
            assert(j@->Obj_0 =~= region_entry(g@)->Obj_0);
        }
        out.push(j);
        i = i + 1;
    }
    let r = Json::array(out);
    proof {
        assert(r@->Arr_0 =~= regions_of(rs)->Arr_0);
    }
    r
}

/// A rendered row.
pub open spec fn row_entry(r: RowV) -> JsonV {
    JsonV::Obj(
        seq![
            ("depth"@, JsonV::num(r.depth as nat)),
            ("root"@, JsonV::num(r.root as nat)),
            ("offset"@, JsonV::num(r.offset as nat)),
            ("address"@, JsonV::num(r.address as nat)),
            ("type"@, JsonV::Str(r.type_label)),
            ("name"@, JsonV::Str(r.name)),
            ("value"@, JsonV::Str(r.value)),
            ("hex"@, JsonV::Str(r.hex)),
            ("comment"@, JsonV::Str(r.comment)),
            ("readable"@, JsonV::Bool(r.readable)),
            ("expandable"@, JsonV::Bool(r.expandable)),
            ("expanded"@, JsonV::Bool(r.expanded)),
        ],
    )
}

/// What a list of rows says.
pub open spec fn rows_view(s: Seq<Row>) -> Seq<RowV> {
    Seq::new(s.len(), |i: int| s[i]@)
}

/// Every rendered row.
pub open spec fn rows_of(rows: Seq<RowV>) -> JsonV {
    JsonV::Arr(Seq::new(rows.len(), |i: int| row_entry(rows[i])))
}

/// [`rows_of`] the list.
pub fn rows_json(rows: &Vec<Row>) -> (r: Json)
    ensures
        r@ == rows_of(rows_view(rows@)),
{
    let ghost rs = rows_view(rows@);
    let mut out: Vec<Json> = Vec::new();
    let mut i: usize = 0;
    while i < rows.len()
        invariant
            rs == rows_view(rows@),
            i <= rows@.len(),
            out@.len() == i,
            forall|k: int| 0 <= k < i ==> (#[trigger] out@[k])@ == row_entry(rs[k]),
        decreases rows@.len() - i,
    {
        let w = &rows[i];
        let mut m = Members::new();
        m.put("depth", Json::num(w.depth as u64));
        m.put("root", Json::num(w.root as u64));
        m.put("offset", Json::num(w.offset as u64));
        m.put("address", Json::num(w.address));
        m.put("type", Json::text(w.type_label.as_str()));
        m.put("name", Json::text(w.name.as_str()));
        m.put("value", Json::text(w.value.as_str()));
        m.put("hex", Json::text(w.hex.as_str()));
        m.put("comment", Json::text(w.comment.as_str()));
        m.put("readable", Json::Bool(w.readable));
        m.put("expandable", Json::Bool(w.expandable));
        m.put("expanded", Json::Bool(w.expanded));
        let j = m.done();
        proof {
            assert(rs[i as int] == w@);
            assert(j@->Obj_0 =~= row_entry(w@)->Obj_0);
        }
        out.push(j);
        i = i + 1;
    }
    let r = Json::array(out);
    proof {
        assert(r@->Arr_0 =~= rows_of(rs)->Arr_0);
    }
    r
}

/// Every process.
pub open spec fn processes_of(ps: Seq<ProcInfoV>) -> JsonV {
    JsonV::Arr(
        Seq::new(
            ps.len(),
            |i: int|
                JsonV::Obj(
                    seq![
                        ("pid"@, JsonV::whole(ps[i].pid as int)),
                        ("name"@, JsonV::Str(ps[i].name)),
                    ],
                ),
        ),
    )
}

/// [`processes_of`] the list.
pub fn processes_json(procs: &Vec<ProcInfo>) -> (r: Json)
    ensures
        r@ == processes_of(procs_view(procs@)),
{
    let ghost ps = procs_view(procs@);
    let mut out: Vec<Json> = Vec::new();
    let mut i: usize = 0;
    while i < procs.len()
        invariant
            ps == procs_view(procs@),
            i <= procs@.len(),
            out@.len() == i,
            forall|k: int|
                0 <= k < i ==> (#[trigger] out@[k])@ == JsonV::Obj(
                    seq![
                        ("pid"@, JsonV::whole(ps[k].pid as int)),
                        ("name"@, JsonV::Str(ps[k].name)),
                    ],
                ),
        decreases procs@.len() - i,
    {
        let p = &procs[i];
        out.push(obj2("pid", Json::whole(p.pid as i64), "name", Json::text(p.name.as_str())));
        i = i + 1;
    }
    let r = Json::array(out);
    proof {
        assert(r@->Arr_0 =~= processes_of(ps)->Arr_0);
    }
    r
}

// ---------------------------------------------------------------------------
// Laws
// ---------------------------------------------------------------------------

/// A class is told with its id, name, address expression and size, and with its
/// fields, all of them and in order.
pub proof fn law_class_is_told_as_it_is(v: RegistryV, id: ClassId, i: int)
    ensures
        ({
            let j = class_of(v, id);
            let c = class_at(v.classes, id);
            &&& j.get("id"@) == Some(JsonV::num(id as nat))
            &&& j.get("name"@) == Some(JsonV::Str(c.name))
            &&& j.get("address_expr"@) == Some(JsonV::Str(c.address_expr))
            &&& j.get("size"@) == Some(JsonV::num(capped(v.class_bytes(id)) as nat))
            &&& j.get("nodes"@) matches Some(ns) && (ns matches JsonV::Arr(items) && items.len()
                == c.nodes.len() && (0 <= i < items.len() ==> items[i] == node_entry(v, id, i)))
        }),
{
    lemma_keys();
    let c = class_at(v.classes, id);
    let ms = class_of(v, id)->Obj_0;
    law_members_are_found_by_name(ms, "id"@, 0);
    law_members_are_found_by_name(ms, "name"@, 1);
    law_members_are_found_by_name(ms, "address_expr"@, 2);
    law_members_are_found_by_name(ms, "size"@, 3);
    law_members_are_found_by_name(ms, "nodes"@, 4);
}

/// A field is told with its number, name, comment and kind, and the offset at
/// which it begins: the bytes of the fields before it.
pub proof fn law_field_is_told_as_it_is(v: RegistryV, id: ClassId, i: int)
    requires
        0 <= i < v.nodes(id).len(),
    ensures
        ({
            let j = node_entry(v, id, i);
            let n = v.nodes(id)[i];
            &&& j.get("index"@) == Some(JsonV::num(i as nat))
            &&& j.get("name"@) == Some(JsonV::Str(n.name))
            &&& j.get("comment"@) == Some(JsonV::Str(n.comment))
            &&& j.get("kind"@) == Some(kind_json(n.kind))
            &&& j.get("offset"@) == Some(
                JsonV::num(
                    capped(
                        list_bytes(
                            v.classes,
                            v.pointer_bytes,
                            v.nodes(id).take(i),
                            v.classes.len(),
                        ),
                    ) as nat,
                ),
            )
        }),
{
    lemma_keys();
    let ms = node_entry(v, id, i)->Obj_0;
    law_members_are_found_by_name(ms, "index"@, 0);
    law_members_are_found_by_name(ms, "name"@, 1);
    law_members_are_found_by_name(ms, "comment"@, 2);
    law_members_are_found_by_name(ms, "kind"@, 3);
    law_members_are_found_by_name(ms, "offset"@, 4);
}

/// The list of classes tells every class, in order, with its id, name and size
/// and the number of its fields.
pub proof fn law_every_class_is_listed(v: RegistryV, i: int)
    requires
        0 <= i < v.classes.len(),
    ensures
        classes_of(v) matches JsonV::Arr(items) && items.len() == v.classes.len() && {
            let j = items[i];
            let c = v.classes[i];
            &&& j.get("id"@) == Some(JsonV::num(c.id as nat))
            &&& j.get("name"@) == Some(JsonV::Str(c.name))
            &&& j.get("size"@) == Some(JsonV::num(capped(v.class_bytes(c.id)) as nat))
            &&& j.get("fields"@) == Some(JsonV::num(c.nodes.len()))
        },
{
    lemma_keys();
    let ms = class_entry(v, v.classes[i])->Obj_0;
    law_members_are_found_by_name(ms, "id"@, 0);
    law_members_are_found_by_name(ms, "name"@, 1);
    law_members_are_found_by_name(ms, "size"@, 2);
    law_members_are_found_by_name(ms, "fields"@, 3);
}

/// Every region is told with its bounds, permissions and file.
pub proof fn law_every_region_is_listed(rs: Seq<RegionV>, i: int)
    requires
        0 <= i < rs.len(),
    ensures
        regions_of(rs) matches JsonV::Arr(items) && items.len() == rs.len() && {
            let j = items[i];
            &&& j.get("start"@) == Some(JsonV::num(rs[i].start as nat))
            &&& j.get("end"@) == Some(JsonV::num(rs[i].end as nat))
            &&& j.get("perms"@) == Some(JsonV::Str(perms_text(rs[i].perms)))
            &&& j.get("path"@) == Some(JsonV::text_or_null(rs[i].path))
        },
{
    lemma_keys();
    let ms = region_entry(rs[i])->Obj_0;
    law_members_are_found_by_name(ms, "start"@, 0);
    law_members_are_found_by_name(ms, "end"@, 1);
    law_members_are_found_by_name(ms, "perms"@, 2);
    law_members_are_found_by_name(ms, "path"@, 3);
}

/// Every row is told with what its columns show.
pub proof fn law_every_row_is_listed(rows: Seq<RowV>, i: int)
    requires
        0 <= i < rows.len(),
    ensures
        rows_of(rows) matches JsonV::Arr(items) && items.len() == rows.len() && {
            let j = items[i];
            let r = rows[i];
            &&& j.get("depth"@) == Some(JsonV::num(r.depth as nat))
            &&& j.get("root"@) == Some(JsonV::num(r.root as nat))
            &&& j.get("offset"@) == Some(JsonV::num(r.offset as nat))
            &&& j.get("address"@) == Some(JsonV::num(r.address as nat))
            &&& j.get("type"@) == Some(JsonV::Str(r.type_label))
            &&& j.get("name"@) == Some(JsonV::Str(r.name))
            &&& j.get("value"@) == Some(JsonV::Str(r.value))
            &&& j.get("hex"@) == Some(JsonV::Str(r.hex))
            &&& j.get("comment"@) == Some(JsonV::Str(r.comment))
        },
{
    lemma_keys();
    let ms = row_entry(rows[i])->Obj_0;
    law_members_are_found_by_name(ms, "depth"@, 0);
    law_members_are_found_by_name(ms, "root"@, 1);
    law_members_are_found_by_name(ms, "offset"@, 2);
    law_members_are_found_by_name(ms, "address"@, 3);
    law_members_are_found_by_name(ms, "type"@, 4);
    law_members_are_found_by_name(ms, "name"@, 5);
    law_members_are_found_by_name(ms, "value"@, 6);
    law_members_are_found_by_name(ms, "hex"@, 7);
    law_members_are_found_by_name(ms, "comment"@, 8);
}

/// The names of the members differ: in their length, or in one of their first
/// two characters.
proof fn lemma_keys()
    ensures
        "id"@.len() == 2,
        "end"@.len() == 3 && "end"@[0] == 'e',
        "hex"@.len() == 3 && "hex"@[0] == 'h',
        "name"@.len() == 4 && "name"@[0] == 'n',
        "size"@.len() == 4 && "size"@[0] == 's',
        "kind"@.len() == 4 && "kind"@[0] == 'k',
        "path"@.len() == 4 && "path"@[0] == 'p',
        "root"@.len() == 4 && "root"@[0] == 'r',
        "type"@.len() == 4 && "type"@[0] == 't',
        "nodes"@.len() == 5 && "nodes"@[0] == 'n',
        "index"@.len() == 5 && "index"@[0] == 'i',
        "start"@.len() == 5 && "start"@[0] == 's',
        "perms"@.len() == 5 && "perms"@[0] == 'p',
        "depth"@.len() == 5 && "depth"@[0] == 'd',
        "value"@.len() == 5 && "value"@[0] == 'v',
        "fields"@.len() == 6 && "fields"@[0] == 'f',
        "offset"@.len() == 6 && "offset"@[0] == 'o',
        "comment"@.len() == 7 && "comment"@[0] == 'c',
        "address"@.len() == 7 && "address"@[0] == 'a',
        "address_expr"@.len() == 12,
{
    reveal_strlit("id");
    reveal_strlit("end");
    reveal_strlit("hex");
    reveal_strlit("name");
    reveal_strlit("size");
    reveal_strlit("kind");
    reveal_strlit("path");
    reveal_strlit("root");
    reveal_strlit("type");
    reveal_strlit("nodes");
    reveal_strlit("index");
    reveal_strlit("start");
    reveal_strlit("perms");
    reveal_strlit("depth");
    reveal_strlit("value");
    reveal_strlit("fields");
    reveal_strlit("offset");
    reveal_strlit("comment");
    reveal_strlit("address");
    reveal_strlit("address_expr");
}

/// Every process is told with its number and its name.
pub proof fn law_every_process_is_listed(ps: Seq<ProcInfoV>, i: int)
    requires
        0 <= i < ps.len(),
    ensures
        processes_of(ps) matches JsonV::Arr(items) && items.len() == ps.len() && {
            let j = items[i];
            &&& j.get("pid"@) == Some(JsonV::whole(ps[i].pid as int))
            &&& j.get("name"@) == Some(JsonV::Str(ps[i].name))
        },
{
    reveal_strlit("pid");
    reveal_strlit("name");
    assert("pid"@.len() == 3 && "name"@.len() == 4);
    let ms = (processes_of(ps)->Arr_0)[i]->Obj_0;
    law_members_are_found_by_name(ms, "pid"@, 0);
    law_members_are_found_by_name(ms, "name"@, 1);
}

} // verus!
