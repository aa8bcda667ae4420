//! The friendly form of the mesh-extension record: groups of mesh objects
//! that share a name, each with its full and stripped name and per-object
//! draw flags.

use vstd::prelude::*;

use crate::mesh_data::MeshObjectData;
use crate::meshex::{AllData, EntryFlag, MeshEntry, MeshEx, MeshObjectGroup};
use crate::strings::{Ptr64, SsbhString};
use crate::vectors::{Vector3, Vector4, FLOAT_ONE_BITS};

verus! {

/// The data associated with a mesh-extension file.
pub struct MeshExData {
    pub mesh_object_groups: Vec<MeshObjectGroupData>,
}

/// One group of mesh objects sharing a full name.
pub struct MeshObjectGroupData {
    pub bounding_sphere: Vector4,
    pub mesh_object_full_name: String,
    pub mesh_object_name: String,
    /// One entry for each mesh object of the group.
    pub entry_flags: Vec<EntryFlags>,
}

/// The per-object flags in friendly form.
#[derive(PartialEq, Eq, Structural, Clone, Copy, Debug)]
pub struct EntryFlags {
    pub draw_model: bool,
    pub cast_shadow: bool,
}

/// The first position at or after `from` where `pat` occurs in `s`.
pub open spec fn first_occurrence(s: Seq<char>, pat: Seq<char>, from: int) -> Option<int>
    decreases s.len() - from,
{
    if pat.len() == 0 || from < 0 || from + pat.len() > s.len() {
        None
    } else if s.subrange(from, from + pat.len() as int) == pat {
        Some(from)
    } else {
        first_occurrence(s, pat, from + 1)
    }
}

/// An occurrence index leaves room for the pattern.
proof fn lemma_first_occurrence_bound(s: Seq<char>, pat: Seq<char>, from: int, i: int)
    requires
        first_occurrence(s, pat, from) == Some(i),
    ensures
        from <= i,
        i + pat.len() <= s.len(),
    decreases s.len() - from,
{
    if !(pat.len() == 0 || from < 0 || from + pat.len() > s.len()) && s.subrange(
        from,
        from + pat.len() as int,
    ) != pat {
        lemma_first_occurrence_bound(s, pat, from + 1, i);
    }
}

/// Whether `pat` occurs in `s` starting at `i`.
fn matches_at(s: &str, pat: &str, i: usize) -> (r: bool)
    requires
        i + pat@.len() <= s@.len(),
    ensures
        r == (s@.subrange(i as int, i + pat@.len() as int) == pat@),
{
    let n = s.unicode_len();
    let m = pat.unicode_len();
    for k in 0..m
        invariant
            n == s@.len(),
            m == pat@.len(),
            i + m <= n,
            forall|j: int| 0 <= j < k ==> s@[i + j] == pat@[j],
    {
        if s.get_char(i + k) != pat.get_char(k) {
            proof {
                if s@.subrange(i as int, i + m as int) == pat@ {
                    assert(s@.subrange(i as int, i + m as int)[k as int] == s@[i + k]);
                }
            }
            return false;
        }
    }
    proof {
        assert(s@.subrange(i as int, i + m as int) =~= pat@);
    }
    true
}

/// The first position where `pat` occurs in `s`.
fn find_str(s: &str, pat: &str) -> (r: Option<usize>)
    ensures
        match r {
            Some(i) => first_occurrence(s@, pat@, 0) == Some(i as int),
            None => first_occurrence(s@, pat@, 0) is None,
        },
{
    let n = s.unicode_len();
    let m = pat.unicode_len();
    if m > n || m == 0 {
        return None;
    }
    let mut i: usize = 0;
    while i <= n - m
        invariant
            n == s@.len(),
            m == pat@.len(),
            0 < m <= n,
            i <= n - m + 1,
            first_occurrence(s@, pat@, 0) == first_occurrence(s@, pat@, i as int),
        decreases n - i,
    {
        if matches_at(s, pat, i) {
            return Some(i);
        }
        i = i + 1;
    }
    None
}

/// A name with its identification-irrelevant tags removed: everything from
/// the first visibility (`_VIS`) or object (`_O_`) tag on; a name without
/// tags loses only a final `Shape` suffix.
pub open spec fn spec_strip(s: Seq<char>) -> Seq<char> {
    let vis = first_occurrence(s, "_VIS"@, 0);
    let o = first_occurrence(s, "_O_"@, 0);
    if vis is None && o is None {
        if s.len() >= 5 && s.subrange(s.len() - 5, s.len() as int) == "Shape"@ {
            s.take(s.len() - 5)
        } else {
            s
        }
    } else {
        let ve = if vis is Some {
            vis->0
        } else {
            s.len() as int
        };
        let oe = if o is Some {
            o->0
        } else {
            s.len() as int
        };
        s.take(if ve <= oe {
            ve
        } else {
            oe
        })
    }
}

/// Strips the portions of a mesh object's name that are not needed for
/// identification: tags such as `_VIS` and `_O_...`, and the `Shape`
/// suffix that modelling tools append.
pub fn strip_mesh_name_tags(full_name: &str) -> (r: String)
    ensures
        r@ == spec_strip(full_name@),
{
    proof {
        reveal_strlit("_VIS");
        reveal_strlit("_O_");
        reveal_strlit("Shape");
    }
    let n = full_name.unicode_len();
    let vis = find_str(full_name, "_VIS");
    let o = find_str(full_name, "_O_");
    if vis.is_none() && o.is_none() {
        if n >= 5 && matches_at(full_name, "Shape", n - 5) {
            full_name.substring_char(0, n - 5).to_owned()
        } else {
            full_name.to_owned()
        }
    } else {
        let ve = match vis {
            Some(i) => {
                proof {
                    lemma_first_occurrence_bound(full_name@, "_VIS"@, 0, i as int);
                }
                i
            },
            None => n,
        };
        let oe = match o {
            Some(i) => {
                proof {
                    lemma_first_occurrence_bound(full_name@, "_O_"@, 0, i as int);
                }
                i
            },
            None => n,
        };
        let end = if ve <= oe {
            ve
        } else {
            oe
        };
        full_name.substring_char(0, end).to_owned()
    }
}

/// The runs of consecutive equal names: each run's name and its length.
pub open spec fn spec_runs(names: Seq<Seq<char>>) -> Seq<(Seq<char>, int)>
    decreases names.len(),
{
    if names.len() == 0 {
        Seq::empty()
    } else {
        let prev = spec_runs(names.drop_last());
        let last = names.last();
        if prev.len() > 0 && prev.last().0 == last {
            prev.drop_last().push((last, prev.last().1 + 1))
        } else {
            prev.push((last, 1))
        }
    }
}

/// The names of a list of mesh objects.
pub open spec fn spec_names(objects: Seq<MeshObjectData>) -> Seq<Seq<char>> {
    Seq::new(objects.len(), |i: int| objects[i].name@)
}

/// Whether the groups reflect the runs: one group per run, carrying the
/// run's name, its stripped form, one all-set flag entry per member, and a
/// zero bounding sphere.
pub open spec fn groups_match_runs(groups: Seq<MeshObjectGroupData>, runs: Seq<(Seq<char>, int)>) -> bool {
    &&& groups.len() == runs.len()
    &&& (forall|g: int|
        0 <= g < groups.len() ==> {
            &&& (#[trigger] groups[g]).bounding_sphere == (Vector4 {
                x: 0u32,
                y: 0u32,
                z: 0u32,
                w: 0u32,
            })
            &&& groups[g].mesh_object_full_name@ == runs[g].0
            &&& groups[g].mesh_object_name@ == spec_strip(runs[g].0)
            &&& groups[g].entry_flags@.len() == runs[g].1
            &&& (forall|k: int|
                0 <= k < groups[g].entry_flags@.len() ==> groups[g].entry_flags@[k] == (EntryFlags {
                    draw_model: true,
                    cast_shadow: true,
                }))
        })
}

impl MeshExData {
    /// Groups consecutive mesh objects that share a name: each group keeps
    /// the shared name, its stripped form, and one all-set flag entry per
    /// object.
    pub fn from_mesh_objects(objects: &[MeshObjectData]) -> (r: Self)
        ensures
            groups_match_runs(r.mesh_object_groups@, spec_runs(spec_names(objects@))),
    {
        let mut groups: Vec<MeshObjectGroupData> = Vec::new();
        let n = objects.len();
        for i in 0..n
            invariant
                n == objects@.len(),
                groups_match_runs(groups@, spec_runs(spec_names(objects@.take(i as int)))),
        {
            let name = &objects[i].name;
            let same = if groups.len() > 0 {
                let last = groups.len() - 1;
                groups[last].mesh_object_full_name == *name
            } else {
                false
            };
            proof {
                assert(spec_names(objects@.take(i + 1)).drop_last() =~= spec_names(
                    objects@.take(i as int),
                ));
                assert(spec_names(objects@.take(i + 1)).last() == objects@[i as int].name@);
            }
            if same {
                let mut g = match groups.pop() {
                    Some(g) => g,
                    None => {
                        proof {
                            assert(false);
                        }
                        return MeshExData { mesh_object_groups: Vec::new() };
                    },
                };
                g.entry_flags.push(EntryFlags { draw_model: true, cast_shadow: true });
                groups.push(g);
                proof {
                    let runs1 = spec_runs(spec_names(objects@.take(i + 1)));
                    let runs0 = spec_runs(spec_names(objects@.take(i as int)));
                    assert(runs1 =~= runs0.drop_last().push(
                        (objects@[i as int].name@, runs0.last().1 + 1),
                    ));
                }
            } else {
                let stripped = strip_mesh_name_tags(name.as_str());
                let mut flags: Vec<EntryFlags> = Vec::new();
                flags.push(EntryFlags { draw_model: true, cast_shadow: true });
                groups.push(
                    MeshObjectGroupData {
                        bounding_sphere: Vector4::zero(),
                        mesh_object_full_name: name.clone(),
                        mesh_object_name: stripped,
                        entry_flags: flags,
                    },
                );
                proof {
                    let runs1 = spec_runs(spec_names(objects@.take(i + 1)));
                    let runs0 = spec_runs(spec_names(objects@.take(i as int)));
                    assert(runs1 =~= runs0.push((objects@[i as int].name@, 1int)));
                }
            }
        }
        proof {
            assert(objects@.take(n as int) =~= objects@);
        }
        MeshExData { mesh_object_groups: groups }
    }
}

/// The friendly flags of the entries that belong to group `gi`, in entry
/// order, over the first `k` entries.
pub open spec fn spec_group_flags(
    entries: Seq<MeshEntry>,
    flags: Seq<EntryFlag>,
    gi: int,
    k: int,
) -> Seq<EntryFlags>
    decreases k,
{
    if k <= 0 {
        Seq::empty()
    } else {
        let rest = spec_group_flags(entries, flags, gi, k - 1);
        if entries[k - 1].mesh_object_group_index == gi {
            rest.push(
                EntryFlags {
                    draw_model: flags[k - 1].draw_model,
                    cast_shadow: flags[k - 1].cast_shadow,
                },
            )
        } else {
            rest
        }
    }
}

impl MeshExData {
    /// The friendly form of a record: groups with their names and the flags
    /// of their entries.  Every pointer of the record must be present, and
    /// there must be a flag for every entry.
    pub fn from(m: &MeshEx) -> (r: Self)
        requires
            m.mesh_object_groups.value is Some,
            m.entries.value is Some,
            m.entry_flags.value is Some,
            m.entries.value->0@.len() <= (m.entry_flags.value->0).0@.len(),
            forall|i: int|
                0 <= i < m.mesh_object_groups.value->0@.len() ==> {
                    &&& (#[trigger] m.mesh_object_groups.value->0@[i]).mesh_object_full_name.value
                        is Some
                    &&& m.mesh_object_groups.value->0@[i].mesh_object_name.value is Some
                },
        ensures
            ({
                let groups = m.mesh_object_groups.value->0@;
                let entries = m.entries.value->0@;
                let flags = (m.entry_flags.value->0).0@;
                &&& r.mesh_object_groups@.len() == groups.len()
                &&& (forall|i: int|
                    0 <= i < groups.len() ==> {
                        &&& (#[trigger] r.mesh_object_groups@[i]).bounding_sphere == groups[i].bounding_sphere
                        &&& r.mesh_object_groups@[i].mesh_object_full_name@
                            == groups[i].mesh_object_full_name.value->0@
                        &&& r.mesh_object_groups@[i].mesh_object_name@
                            == groups[i].mesh_object_name.value->0@
                        &&& r.mesh_object_groups@[i].entry_flags@ == spec_group_flags(
                            entries,
                            flags,
                            i,
                            entries.len() as int,
                        )
                    })
            }),
    {
        let groups = match m.mesh_object_groups.as_ref() {
            Some(g) => g,
            None => {
                proof {
                    assert(false);
                }
                return MeshExData { mesh_object_groups: Vec::new() };
            },
        };
        let entries = match m.entries.as_ref() {
            Some(e) => e,
            None => {
                proof {
                    assert(false);
                }
                return MeshExData { mesh_object_groups: Vec::new() };
            },
        };
        let flags = match m.entry_flags.as_ref() {
            Some(f) => f,
            None => {
                proof {
                    assert(false);
                }
                return MeshExData { mesh_object_groups: Vec::new() };
            },
        };
        let ng = groups.len();
        let ne = entries.len();
        let mut out: Vec<MeshObjectGroupData> = Vec::new();
        for i in 0..ng
            invariant
                ng == groups@.len(),
                ne == entries@.len(),
                ne <= flags.0@.len(),
                groups@ == m.mesh_object_groups.value->0@,
                entries@ == m.entries.value->0@,
                flags.0@ == (m.entry_flags.value->0).0@,
                forall|j: int|
                    0 <= j < ng ==> {
                        &&& (#[trigger] groups@[j]).mesh_object_full_name.value is Some
                        &&& groups@[j].mesh_object_name.value is Some
                    },
                out@.len() == i,
                forall|j: int|
                    0 <= j < i ==> {
                        &&& (#[trigger] out@[j]).bounding_sphere == groups@[j].bounding_sphere
                        &&& out@[j].mesh_object_full_name@
                            == groups@[j].mesh_object_full_name.value->0@
                        &&& out@[j].mesh_object_name@ == groups@[j].mesh_object_name.value->0@
                        &&& out@[j].entry_flags@ == spec_group_flags(
                            entries@,
                            flags.0@,
                            j,
                            ne as int,
                        )
                    },
        {
            let g = &groups[i];
            let full_name = match g.mesh_object_full_name.as_ref() {
                Some(s) => s.to_string_lossy(),
                None => {
                    proof {
                        assert(false);
                    }
                    String::new()
                },
            };
            let name = match g.mesh_object_name.as_ref() {
                Some(s) => s.to_string_lossy(),
                None => {
                    proof {
                        assert(false);
                    }
                    String::new()
                },
            };
            let mut entry_flags: Vec<EntryFlags> = Vec::new();
            for k in 0..ne
                invariant
                    ne == entries@.len(),
                    ne <= flags.0@.len(),
                    i < ng,
                    entry_flags@ == spec_group_flags(entries@, flags.0@, i as int, k as int),
            {
                if entries[k].mesh_object_group_index as usize == i {
                    let f = flags.0[k];
                    entry_flags.push(
                        EntryFlags { draw_model: f.draw_model, cast_shadow: f.cast_shadow },
                    );
                }
            }
            out.push(
                MeshObjectGroupData {
                    bounding_sphere: g.bounding_sphere,
                    mesh_object_full_name: full_name,
                    mesh_object_name: name,
                    entry_flags,
                },
            );
        }
        MeshExData { mesh_object_groups: out }
    }
}

/// The total number of flag entries over all groups.
pub open spec fn spec_total_entries(groups: Seq<MeshObjectGroupData>, k: int) -> int
    decreases k,
{
    if k <= 0 {
        0
    } else {
        spec_total_entries(groups, k - 1) + groups[k - 1].entry_flags@.len()
    }
}

/// The wire entries of the first `k` groups: one per flag entry, carrying
/// its group index and the canonical unknown vector.
pub open spec fn spec_flat_entries(groups: Seq<MeshObjectGroupData>, k: int) -> Seq<MeshEntry>
    decreases k,
{
    if k <= 0 {
        Seq::empty()
    } else {
        spec_flat_entries(groups, k - 1) + Seq::new(
            groups[k - 1].entry_flags@.len(),
            |j: int| MeshEntry {
                mesh_object_group_index: (k - 1) as u32,
                unk1: Vector3 { x: 0u32, y: FLOAT_ONE_BITS, z: 0u32 },
            },
        )
    }
}

/// The wire flags of the first `k` groups, concatenated.
pub open spec fn spec_flat_flags(groups: Seq<MeshObjectGroupData>, k: int) -> Seq<EntryFlag>
    decreases k,
{
    if k <= 0 {
        Seq::empty()
    } else {
        spec_flat_flags(groups, k - 1) + Seq::new(
            groups[k - 1].entry_flags@.len(),
            |j: int| EntryFlag {
                draw_model: groups[k - 1].entry_flags@[j].draw_model,
                cast_shadow: groups[k - 1].entry_flags@[j].cast_shadow,
            },
        )
    }
}

impl MeshEx {
    /// The record form of the friendly data: counted groups, one wire entry
    /// and flag per group member, and the whole-file block named "All".
    /// The file length is left zero, to be fixed up by the file writer.
    pub fn from(data: &MeshExData) -> (r: Self)
        requires
            data.mesh_object_groups@.len() <= u32::MAX,
            spec_total_entries(
                data.mesh_object_groups@,
                data.mesh_object_groups@.len() as int,
            ) <= u32::MAX,
        ensures
            ({
                let groups = data.mesh_object_groups@;
                &&& r.file_length == 0
                &&& r.entry_count == spec_total_entries(groups, groups.len() as int)
                &&& r.mesh_object_group_count == groups.len()
                &&& r.all_data.value matches Some(a) && ({
                    &&& a.bounding_sphere == (Vector4 { x: 0u32, y: 0u32, z: 0u32, w: 0u32 })
                    &&& a.name.value matches Some(nm) && nm@ == "All"@
                })
                &&& r.mesh_object_groups.value matches Some(gs) && gs@.len() == groups.len() && (
                forall|i: int|
                    0 <= i < groups.len() ==> {
                        &&& (#[trigger] gs@[i]).bounding_sphere == groups[i].bounding_sphere
                        &&& gs@[i].mesh_object_full_name.value matches Some(f) && f@
                            == groups[i].mesh_object_full_name@
                        &&& gs@[i].mesh_object_name.value matches Some(m2) && m2@
                            == groups[i].mesh_object_name@
                    })
                &&& r.entries.value matches Some(es) && es@ == spec_flat_entries(
                    groups,
                    groups.len() as int,
                )
                &&& r.entry_flags.value matches Some(fs) && fs.0@ == spec_flat_flags(
                    groups,
                    groups.len() as int,
                )
                &&& r.unk1 == 0
            }),
    {
        let groups = &data.mesh_object_groups;
        let ng = groups.len();
        let mut entry_count: u32 = 0;
        let mut wire_groups: Vec<MeshObjectGroup> = Vec::new();
        let mut wire_entries: Vec<MeshEntry> = Vec::new();
        let mut wire_flags: Vec<EntryFlag> = Vec::new();
        for i in 0..ng
            invariant
                ng == groups@.len(),
                spec_total_entries(groups@, ng as int) <= u32::MAX,
                entry_count == spec_total_entries(groups@, i as int),
                wire_groups@.len() == i,
                forall|j: int|
                    0 <= j < i ==> {
                        &&& (#[trigger] wire_groups@[j]).bounding_sphere
                            == groups@[j].bounding_sphere
                        &&& wire_groups@[j].mesh_object_full_name.value matches Some(f) && f@
                            == groups@[j].mesh_object_full_name@
                        &&& wire_groups@[j].mesh_object_name.value matches Some(m2) && m2@
                            == groups@[j].mesh_object_name@
                    },
                wire_entries@ == spec_flat_entries(groups@, i as int),
                wire_flags@ == spec_flat_flags(groups@, i as int),
        {
            let g = &groups[i];
            proof {
                lemma_total_entries_mono(groups@, i + 1, ng as int);
            }
            wire_groups.push(
                MeshObjectGroup {
                    bounding_sphere: g.bounding_sphere,
                    mesh_object_full_name: Ptr64::new(
                        SsbhString::new(g.mesh_object_full_name.as_str()),
                    ),
                    mesh_object_name: Ptr64::new(SsbhString::new(g.mesh_object_name.as_str())),
                },
            );
            let cnt = g.entry_flags.len();
            let ghost entries_before = wire_entries@;
            let ghost flags_before = wire_flags@;
            for k in 0..cnt
                invariant
                    cnt == g.entry_flags@.len(),
                    i < ng,
                    g == &groups@[i as int],
                    wire_entries@ == entries_before + Seq::new(
                        k as nat,
                        |j: int| MeshEntry {
                            mesh_object_group_index: i as u32,
                            unk1: Vector3 { x: 0u32, y: FLOAT_ONE_BITS, z: 0u32 },
                        },
                    ),
                    wire_flags@ == flags_before + Seq::new(
                        k as nat,
                        |j: int| EntryFlag {
                            draw_model: g.entry_flags@[j].draw_model,
                            cast_shadow: g.entry_flags@[j].cast_shadow,
                        },
                    ),
            {
                wire_entries.push(
                    MeshEntry {
                        mesh_object_group_index: i as u32,
                        unk1: Vector3::new(0, FLOAT_ONE_BITS, 0),
                    },
                );
                let f = g.entry_flags[k];
                wire_flags.push(EntryFlag { draw_model: f.draw_model, cast_shadow: f.cast_shadow });
                proof {
                    assert(wire_entries@ =~= entries_before + Seq::new(
                        (k + 1) as nat,
                        |j: int| MeshEntry {
                            mesh_object_group_index: i as u32,
                            unk1: Vector3 { x: 0u32, y: FLOAT_ONE_BITS, z: 0u32 },
                        },
                    ));
                    assert(wire_flags@ =~= flags_before + Seq::new(
                        (k + 1) as nat,
                        |j: int| EntryFlag {
                            draw_model: g.entry_flags@[j].draw_model,
                            cast_shadow: g.entry_flags@[j].cast_shadow,
                        },
                    ));
                }
            }
            entry_count = entry_count + cnt as u32;
            proof {
                assert(wire_entries@ =~= spec_flat_entries(groups@, i + 1));
                assert(wire_flags@ =~= spec_flat_flags(groups@, i + 1));
            }
        }
        MeshEx {
            file_length: 0,
            entry_count,
            mesh_object_group_count: ng as u32,
            all_data: Ptr64::new(
                AllData {
                    bounding_sphere: Vector4::zero(),
                    name: Ptr64::new(SsbhString::new("All")),
                },
            ),
            mesh_object_groups: Ptr64::new(wire_groups),
            entries: Ptr64::new(wire_entries),
            entry_flags: Ptr64::new(crate::meshex::EntryFlags(wire_flags)),
            unk1: 0,
        }
    }
}

/// The running flag total never exceeds the full total.
proof fn lemma_total_entries_mono(groups: Seq<MeshObjectGroupData>, a: int, b: int)
    requires
        a <= b,
    ensures
        spec_total_entries(groups, a) <= spec_total_entries(groups, b),
    decreases b - a,
{
    if a < b {
        lemma_total_entries_mono(groups, a, b - 1);
    }
}

} // verus!
