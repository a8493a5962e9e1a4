use vstd::prelude::*;

use crate::mapper::decode_ok;
use crate::mapper::decoded_slot;
use crate::mapper::encode_spec;
use crate::mapper::lookup;
use crate::mapper::mandatory_fields;
use crate::mapper::optional_fields;
use crate::mapper::unique_names;
use crate::mapper::values_match;
use crate::paragraph::DeclView;
use crate::paragraph::FieldView;
use crate::transform::transform_name;

verus! {

proof fn lemma_lookup_concat(a: Seq<FieldView>, b: Seq<FieldView>, nm: Seq<char>)
    ensures
        lookup(a + b, nm) == (if lookup(b, nm) is Some {
            lookup(b, nm)
        } else {
            lookup(a, nm)
        }),
    decreases b.len(),
{
    if b.len() == 0 {
        assert(a + b =~= a);
    } else {
        assert((a + b).last() == b.last());
        assert((a + b).drop_last() =~= a + b.drop_last());
        lemma_lookup_concat(a, b.drop_last(), nm);
    }
}

proof fn lemma_lookup_absent(fields: Seq<FieldView>, nm: Seq<char>)
    requires
        forall|j: int| 0 <= j < fields.len() ==> fields[j].name != nm,
    ensures
        lookup(fields, nm) is None,
    decreases fields.len(),
{
    if fields.len() > 0 {
        assert(fields.last() == fields[fields.len() - 1]);
        lemma_lookup_absent(fields.drop_last(), nm);
    }
}

proof fn lemma_mandatory_lookup_found(decls: Seq<DeclView>, vals: Seq<Option<Seq<char>>>, i: int)
    requires
        vals.len() == decls.len(),
        0 <= i < decls.len(),
        !decls[i].optional,
        forall|j: int|
            i < j < decls.len() && !decls[j].optional ==> transform_name(decls[j].identifier)
                != transform_name(decls[i].identifier),
    ensures
        lookup(mandatory_fields(decls, vals), transform_name(decls[i].identifier)) == Some(
            vals[i]->0,
        ),
    decreases decls.len(),
{
    let nm = transform_name(decls[i].identifier);
    let d = decls.drop_last();
    let v = vals.drop_last();
    let rest = mandatory_fields(d, v);
    let last = decls.len() - 1;
    assert(decls.last() == decls[last]);
    assert(vals.last() == vals[last]);
    if !decls[last].optional {
        let fld = FieldView { name: transform_name(decls[last].identifier), value: vals[last]->0 };
        assert(mandatory_fields(decls, vals) == rest.push(fld));
        assert(rest.push(fld).last() == fld);
        assert(rest.push(fld).drop_last() =~= rest);
        if i == last {
            assert(lookup(mandatory_fields(decls, vals), nm) == Some(vals[i]->0));
        } else {
            assert(fld.name != nm);
            assert(d[i] == decls[i]);
            assert(forall|j: int|
                i < j < d.len() && !d[j].optional ==> transform_name(d[j].identifier)
                    != transform_name(d[i].identifier));
            lemma_mandatory_lookup_found(d, v, i);
        }
    } else {
        assert(mandatory_fields(decls, vals) == rest);
        assert(i < last);
        assert(d[i] == decls[i]);
        assert(forall|j: int|
            i < j < d.len() && !d[j].optional ==> transform_name(d[j].identifier)
                != transform_name(d[i].identifier));
        lemma_mandatory_lookup_found(d, v, i);
    }
}

proof fn lemma_mandatory_lookup_absent(
    decls: Seq<DeclView>,
    vals: Seq<Option<Seq<char>>>,
    nm: Seq<char>,
)
    requires
        forall|j: int|
            0 <= j < decls.len() && !decls[j].optional ==> transform_name(decls[j].identifier)
                != nm,
    ensures
        lookup(mandatory_fields(decls, vals), nm) is None,
    decreases decls.len(),
{
    if decls.len() > 0 {
        let d = decls.drop_last();
        let v = vals.drop_last();
        let rest = mandatory_fields(d, v);
        let last = decls.len() - 1;
        assert(decls.last() == decls[last]);
        assert(forall|j: int| 0 <= j < d.len() ==> d[j] == decls[j]);
        lemma_mandatory_lookup_absent(d, v, nm);
        if !decls[last].optional {
            let fld = FieldView {
                name: transform_name(decls[last].identifier),
                value: vals.last()->0,
            };
            assert(mandatory_fields(decls, vals) == rest.push(fld));
            assert(rest.push(fld).last() == fld);
            assert(fld.name != nm);
            assert(rest.push(fld).drop_last() =~= rest);
        }
    }
}

proof fn lemma_optional_lookup_found(decls: Seq<DeclView>, vals: Seq<Option<Seq<char>>>, i: int)
    requires
        vals.len() == decls.len(),
        0 <= i < decls.len(),
        decls[i].optional,
        vals[i] is Some,
        forall|j: int|
            i < j < decls.len() && decls[j].optional ==> transform_name(decls[j].identifier)
                != transform_name(decls[i].identifier),
    ensures
        lookup(optional_fields(decls, vals), transform_name(decls[i].identifier)) == Some(
            vals[i]->0,
        ),
    decreases decls.len(),
{
    let nm = transform_name(decls[i].identifier);
    let d = decls.drop_last();
    let v = vals.drop_last();
    let rest = optional_fields(d, v);
    let last = decls.len() - 1;
    assert(decls.last() == decls[last]);
    assert(vals.last() == vals[last]);
    if decls[last].optional && vals[last] is Some {
        let fld = FieldView { name: transform_name(decls[last].identifier), value: vals[last]->0 };
        assert(optional_fields(decls, vals) == rest.push(fld));
        assert(rest.push(fld).last() == fld);
        assert(rest.push(fld).drop_last() =~= rest);
        if i == last {
            assert(lookup(optional_fields(decls, vals), nm) == Some(vals[i]->0));
        } else {
            assert(fld.name != nm);
            assert(d[i] == decls[i]);
            assert(forall|j: int|
                i < j < d.len() && d[j].optional ==> transform_name(d[j].identifier)
                    != transform_name(d[i].identifier));
            lemma_optional_lookup_found(d, v, i);
        }
    } else {
        assert(optional_fields(decls, vals) == rest);
        assert(i < last);
        assert(d[i] == decls[i]);
        assert(forall|j: int|
            i < j < d.len() && d[j].optional ==> transform_name(d[j].identifier)
                != transform_name(d[i].identifier));
        lemma_optional_lookup_found(d, v, i);
    }
}

proof fn lemma_optional_lookup_absent(
    decls: Seq<DeclView>,
    vals: Seq<Option<Seq<char>>>,
    nm: Seq<char>,
)
    requires
        vals.len() == decls.len(),
        forall|j: int|
            0 <= j < decls.len() && decls[j].optional && vals[j] is Some ==> transform_name(
                decls[j].identifier,
            ) != nm,
    ensures
        lookup(optional_fields(decls, vals), nm) is None,
    decreases decls.len(),
{
    if decls.len() > 0 {
        let d = decls.drop_last();
        let v = vals.drop_last();
        let rest = optional_fields(d, v);
        let last = decls.len() - 1;
        assert(decls.last() == decls[last]);
        assert(vals.last() == vals[last]);
        assert(forall|j: int| 0 <= j < d.len() ==> d[j] == decls[j]);
        assert(forall|j: int| 0 <= j < v.len() ==> v[j] == vals[j]);
        lemma_optional_lookup_absent(d, v, nm);
        if decls[last].optional && vals[last] is Some {
            let fld = FieldView {
                name: transform_name(decls[last].identifier),
                value: vals[last]->0,
            };
            assert(optional_fields(decls, vals) == rest.push(fld));
            assert(rest.push(fld).last() == fld);
            assert(fld.name != nm);
            assert(rest.push(fld).drop_last() =~= rest);
        }
    }
}

/// Round-trip: decoding the encoding of any well-formed record yields the
/// record back. Every declared field's slot decodes to exactly the value it
/// was encoded from, so decoding succeeds and rebuilds the same record.
pub proof fn lemma_round_trip(decls: Seq<DeclView>, vals: Seq<Option<Seq<char>>>)
    requires
        values_match(decls, vals),
        unique_names(decls),
    ensures
        decode_ok(decls, encode_spec(decls, vals)),
        forall|i: int|
            0 <= i < decls.len() ==> decoded_slot(decls, encode_spec(decls, vals), i) == vals[i],
{
    let enc = encode_spec(decls, vals);
    assert forall|i: int| 0 <= i < decls.len() implies decoded_slot(decls, enc, i) == vals[i] by {
        let nm = transform_name(decls[i].identifier);
        lemma_lookup_concat(mandatory_fields(decls, vals), optional_fields(decls, vals), nm);
        if !decls[i].optional {
            lemma_optional_lookup_absent(decls, vals, nm);
            lemma_mandatory_lookup_found(decls, vals, i);
        } else {
            if vals[i] is Some {
                lemma_optional_lookup_found(decls, vals, i);
            } else {
                lemma_optional_lookup_absent(decls, vals, nm);
                lemma_mandatory_lookup_absent(decls, vals, nm);
            }
        }
    }
}

proof fn lemma_lookup_insert_other(
    fields: Seq<FieldView>,
    extra: FieldView,
    pos: int,
    nm: Seq<char>,
)
    requires
        0 <= pos <= fields.len(),
        extra.name != nm,
    ensures
        lookup(fields.insert(pos, extra), nm) == lookup(fields, nm),
    decreases fields.len(),
{
    let t = fields.insert(pos, extra);
    if pos == fields.len() {
        assert(t.last() == extra);
        assert(t.drop_last() =~= fields);
    } else {
        assert(t.last() == fields.last());
        assert(t.drop_last() =~= fields.drop_last().insert(pos, extra));
        lemma_lookup_insert_other(fields.drop_last(), extra, pos, nm);
    }
}

/// Unknown-field tolerance: inserting one field whose name matches no
/// declared field's transformed name, at any position, changes neither any
/// decoded slot nor whether decoding succeeds.
pub proof fn lemma_unknown_field_tolerance(
    decls: Seq<DeclView>,
    fields: Seq<FieldView>,
    extra: FieldView,
    pos: int,
)
    requires
        0 <= pos <= fields.len(),
        forall|j: int|
            0 <= j < decls.len() ==> transform_name(decls[j].identifier) != extra.name,
    ensures
        forall|i: int|
            0 <= i < decls.len() ==> decoded_slot(decls, fields.insert(pos, extra), i)
                == decoded_slot(decls, fields, i),
        decode_ok(decls, fields.insert(pos, extra)) == decode_ok(decls, fields),
{
    assert forall|i: int| 0 <= i < decls.len() implies decoded_slot(
        decls,
        fields.insert(pos, extra),
        i,
    ) == decoded_slot(decls, fields, i) by {
        lemma_lookup_insert_other(fields, extra, pos, transform_name(decls[i].identifier));
    }
}

proof fn lemma_mandatory_fields_avoid(
    decls: Seq<DeclView>,
    vals: Seq<Option<Seq<char>>>,
    nm: Seq<char>,
)
    requires
        forall|k: int|
            0 <= k < decls.len() && !decls[k].optional ==> transform_name(decls[k].identifier)
                != nm,
    ensures
        forall|j: int|
            0 <= j < mandatory_fields(decls, vals).len() ==> mandatory_fields(decls, vals)[j].name
                != nm,
    decreases decls.len(),
{
    if decls.len() > 0 {
        let d = decls.drop_last();
        let v = vals.drop_last();
        let rest = mandatory_fields(d, v);
        let last = decls.len() - 1;
        assert(decls.last() == decls[last]);
        assert(forall|j: int| 0 <= j < d.len() ==> d[j] == decls[j]);
        lemma_mandatory_fields_avoid(d, v, nm);
        if !decls[last].optional {
            let fld = FieldView {
                name: transform_name(decls[last].identifier),
                value: vals.last()->0,
            };
            assert(mandatory_fields(decls, vals) == rest.push(fld));
            assert(fld.name != nm);
            assert forall|j: int| 0 <= j < rest.push(fld).len() implies rest.push(fld)[j].name
                != nm by {
                if j < rest.len() {
                    assert(rest.push(fld)[j] == rest[j]);
                } else {
                    assert(rest.push(fld)[j] == fld);
                }
            }
        }
    }
}

proof fn lemma_optional_fields_avoid(
    decls: Seq<DeclView>,
    vals: Seq<Option<Seq<char>>>,
    nm: Seq<char>,
)
    requires
        vals.len() == decls.len(),
        forall|k: int|
            0 <= k < decls.len() && decls[k].optional && vals[k] is Some ==> transform_name(
                decls[k].identifier,
            ) != nm,
    ensures
        forall|j: int|
            0 <= j < optional_fields(decls, vals).len() ==> optional_fields(decls, vals)[j].name
                != nm,
    decreases decls.len(),
{
    if decls.len() > 0 {
        let d = decls.drop_last();
        let v = vals.drop_last();
        let rest = optional_fields(d, v);
        let last = decls.len() - 1;
        assert(decls.last() == decls[last]);
        assert(vals.last() == vals[last]);
        assert(forall|j: int| 0 <= j < d.len() ==> d[j] == decls[j]);
        assert(forall|j: int| 0 <= j < v.len() ==> v[j] == vals[j]);
        lemma_optional_fields_avoid(d, v, nm);
        if decls[last].optional && vals[last] is Some {
            let fld = FieldView {
                name: transform_name(decls[last].identifier),
                value: vals[last]->0,
            };
            assert(optional_fields(decls, vals) == rest.push(fld));
            assert(fld.name != nm);
            assert forall|j: int| 0 <= j < rest.push(fld).len() implies rest.push(fld)[j].name
                != nm by {
                if j < rest.len() {
                    assert(rest.push(fld)[j] == rest[j]);
                } else {
                    assert(rest.push(fld)[j] == fld);
                }
            }
        }
    }
}

/// Optional-absence, encoding side: a record whose optional field holds no
/// value encodes to a paragraph with no field at all under that field's
/// transformed name, and decoding that paragraph leaves the slot absent.
pub proof fn lemma_optional_absent_encode(
    decls: Seq<DeclView>,
    vals: Seq<Option<Seq<char>>>,
    i: int,
)
    requires
        values_match(decls, vals),
        unique_names(decls),
        0 <= i < decls.len(),
        decls[i].optional,
        vals[i] is None,
    ensures
        forall|j: int|
            0 <= j < encode_spec(decls, vals).len() ==> encode_spec(decls, vals)[j].name
                != transform_name(decls[i].identifier),
        decoded_slot(decls, encode_spec(decls, vals), i) is None,
{
    let nm = transform_name(decls[i].identifier);
    let m = mandatory_fields(decls, vals);
    let o = optional_fields(decls, vals);
    lemma_mandatory_fields_avoid(decls, vals, nm);
    lemma_optional_fields_avoid(decls, vals, nm);
    assert(forall|j: int| 0 <= j < m.len() + o.len() ==> (m + o)[j].name != nm);
    lemma_lookup_absent(encode_spec(decls, vals), nm);
}

/// Optional-absence, decoding side: a paragraph in which no field carries an
/// optional declared field's transformed name decodes that field to absent.
pub proof fn lemma_absent_name_decodes_none(decls: Seq<DeclView>, fields: Seq<FieldView>, i: int)
    requires
        0 <= i < decls.len(),
        forall|j: int|
            0 <= j < fields.len() ==> fields[j].name != transform_name(decls[i].identifier),
    ensures
        decoded_slot(decls, fields, i) is None,
{
    lemma_lookup_absent(fields, transform_name(decls[i].identifier));
}

} // verus!
