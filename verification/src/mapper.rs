use vstd::prelude::*;

use crate::paragraph::DeclView;
use crate::paragraph::DecodeError;
use crate::paragraph::Field;
use crate::paragraph::FieldDecl;
use crate::paragraph::FieldView;
use crate::paragraph::Paragraph;
use crate::paragraph::Record;
use crate::paragraph::error_identifier;
use crate::transform::ident_to_parse;
use crate::transform::transform_name;

verus! {

/// The value that a left-to-right scan of `fields` leaves in the slot named
/// `name`: the value of the last field carrying that name, absent when no
/// field carries it.
pub open spec fn lookup(fields: Seq<FieldView>, name: Seq<char>) -> Option<Seq<char>>
    decreases fields.len(),
{
    if fields.len() == 0 {
        None
    } else if fields.last().name == name {
        Some(fields.last().value)
    } else {
        lookup(fields.drop_last(), name)
    }
}

/// The value that decoding `fields` against `decls` leaves in slot `i`.
pub open spec fn decoded_slot(decls: Seq<DeclView>, fields: Seq<FieldView>, i: int) -> Option<
    Seq<char>,
> {
    lookup(fields, transform_name(decls[i].identifier))
}

/// Decoding succeeds exactly when every mandatory declared field finds a
/// matching paragraph field.
pub open spec fn decode_ok(decls: Seq<DeclView>, fields: Seq<FieldView>) -> bool {
    forall|i: int|
        0 <= i < decls.len() && !decls[i].optional ==> decoded_slot(decls, fields, i) is Some
}

/// Slot `k` holds the first mandatory declared field, in declaration order,
/// that the paragraph lacks.
pub open spec fn first_missing_at(decls: Seq<DeclView>, fields: Seq<FieldView>, k: int) -> bool {
    &&& 0 <= k < decls.len()
    &&& !decls[k].optional
    &&& decoded_slot(decls, fields, k) is None
    &&& forall|j: int|
        0 <= j < k && !decls[j].optional ==> decoded_slot(decls, fields, j) is Some
}

/// No two declared fields map to the same paragraph field name: the record
/// invariant that makes the mapping unambiguous.
pub open spec fn unique_names(decls: Seq<DeclView>) -> bool {
    forall|i: int, j: int|
        0 <= i < j < decls.len() ==> transform_name(decls[i].identifier) != transform_name(
            decls[j].identifier,
        )
}

/// The record's value slots fit the declarations: one slot per declared
/// field, and every mandatory slot holds a value.
pub open spec fn values_match(decls: Seq<DeclView>, vals: Seq<Option<Seq<char>>>) -> bool {
    &&& vals.len() == decls.len()
    &&& forall|i: int| 0 <= i < decls.len() && !decls[i].optional ==> vals[i] is Some
}

/// The fields that encoding emits first: one per mandatory declared field,
/// in declaration order.
pub open spec fn mandatory_fields(decls: Seq<DeclView>, vals: Seq<Option<Seq<char>>>) -> Seq<
    FieldView,
>
    decreases decls.len(),
{
    if decls.len() == 0 {
        Seq::empty()
    } else {
        let rest = mandatory_fields(decls.drop_last(), vals.drop_last());
        if !decls.last().optional {
            rest.push(
                FieldView {
                    name: transform_name(decls.last().identifier),
                    value: vals.last()->0,
                },
            )
        } else {
            rest
        }
    }
}

/// The fields that encoding emits second: one per optional declared field
/// whose slot holds a value, in declaration order.
pub open spec fn optional_fields(decls: Seq<DeclView>, vals: Seq<Option<Seq<char>>>) -> Seq<
    FieldView,
>
    decreases decls.len(),
{
    if decls.len() == 0 {
        Seq::empty()
    } else {
        let rest = optional_fields(decls.drop_last(), vals.drop_last());
        if decls.last().optional && vals.last() is Some {
            rest.push(
                FieldView {
                    name: transform_name(decls.last().identifier),
                    value: vals.last()->0,
                },
            )
        } else {
            rest
        }
    }
}

/// The paragraph that encoding a record produces: all mandatory fields in
/// declaration order, then all present optional fields in declaration order.
pub open spec fn encode_spec(decls: Seq<DeclView>, vals: Seq<Option<Seq<char>>>) -> Seq<
    FieldView,
> {
    mandatory_fields(decls, vals) + optional_fields(decls, vals)
}

/// The character-sequence content of one value slot.
spec fn slot_view(s: Option<String>) -> Option<Seq<char>> {
    match s {
        Some(v) => Some(v@),
        None => None,
    }
}

/// Decode a paragraph against a list of field declarations: scan the
/// paragraph's fields in order, let the last field named like a declared
/// field fill that field's slot, ignore unrecognized fields, and fail on the
/// first mandatory declared field whose slot stays empty.
pub fn decode(decls: &Vec<FieldDecl>, p: &Paragraph) -> (res: Result<Record, DecodeError>)
    requires
        unique_names(decls.deep_view()),
    ensures
        res is Ok <==> decode_ok(decls.deep_view(), p@),
        res matches Ok(rec) ==> rec@.len() == decls@.len() && forall|i: int|
            0 <= i < decls@.len() ==> rec@[i] == decoded_slot(decls.deep_view(), p@, i),
        res matches Err(e) ==> exists|k: int|
            #[trigger] first_missing_at(decls.deep_view(), p@, k) && error_identifier(e)
                == decls.deep_view()[k].identifier,
{
    let ghost dv = decls.deep_view();
    let n = decls.len();

    let mut names: Vec<String> = Vec::new();
    let mut i: usize = 0;
    while i < n
        invariant
            n == decls@.len(),
            dv == decls.deep_view(),
            i <= n,
            names@.len() == i,
            forall|j: int| 0 <= j < i ==> names@[j]@ == transform_name(dv[j].identifier),
        decreases n - i,
    {
        names.push(ident_to_parse(decls[i].identifier.as_str()));
        i = i + 1;
    }

    let mut slots: Vec<Option<String>> = Vec::new();
    let mut i2: usize = 0;
    while i2 < n
        invariant
            i2 <= n,
            slots@.len() == i2,
            forall|j: int| 0 <= j < i2 ==> slots@[j] is None,
        decreases n - i2,
    {
        slots.push(None);
        i2 = i2 + 1;
    }
    proof {
        assert(p@.take(0) =~= Seq::<FieldView>::empty());
    }

    let m = p.fields.len();
    let mut k: usize = 0;
    while k < m
        invariant
            n == decls@.len(),
            dv == decls.deep_view(),
            m == p@.len(),
            m == p.fields@.len(),
            k <= m,
            names@.len() == n,
            slots@.len() == n,
            forall|j: int| 0 <= j < n ==> names@[j]@ == transform_name(dv[j].identifier),
            forall|j: int|
                0 <= j < n ==> slot_view(slots@[j]) == lookup(
                    p@.take(k as int),
                    transform_name(dv[j].identifier),
                ),
        decreases m - k,
    {
        let ghost fields_so_far = p@.take(k as int);
        proof {
            assert(p@[k as int] == p.fields@[k as int]@);
            assert(p@.take(k as int + 1).last() == p@[k as int]);
            assert(p@.take(k as int + 1).drop_last() =~= fields_so_far);
        }
        let mut i3: usize = 0;
        while i3 < n
            invariant
                n == decls@.len(),
                dv == decls.deep_view(),
                m == p@.len(),
                m == p.fields@.len(),
                k < m,
                fields_so_far == p@.take(k as int),
                p@.take(k as int + 1).last() == p@[k as int],
                p@.take(k as int + 1).drop_last() == fields_so_far,
                p@[k as int] == p.fields@[k as int]@,
                i3 <= n,
                names@.len() == n,
                slots@.len() == n,
                forall|j: int| 0 <= j < n ==> names@[j]@ == transform_name(dv[j].identifier),
                forall|j: int|
                    0 <= j < i3 ==> slot_view(slots@[j]) == lookup(
                        p@.take(k as int + 1),
                        transform_name(dv[j].identifier),
                    ),
                forall|j: int|
                    i3 <= j < n ==> slot_view(slots@[j]) == lookup(
                        fields_so_far,
                        transform_name(dv[j].identifier),
                    ),
            decreases n - i3,
        {
            let ghost nm = transform_name(dv[i3 as int].identifier);
            if p.fields[k].name == names[i3] {
                let v = p.fields[k].value.clone();
                proof {
                    assert(p@[k as int].name == nm);
                    assert(lookup(p@.take(k as int + 1), nm) == Some(p@[k as int].value));
                }
                slots[i3] = Some(v);
                proof {
                    assert(slot_view(slots@[i3 as int]) == Some(p@[k as int].value));
                }
            } else {
                proof {
                    assert(p@[k as int].name != nm);
                    assert(lookup(p@.take(k as int + 1), nm) == lookup(fields_so_far, nm));
                }
            }
            i3 = i3 + 1;
        }
        k = k + 1;
    }
    proof {
        assert(p@.take(m as int) =~= p@);
        assert(forall|j: int|
            0 <= j < n ==> slot_view(slots@[j]) == decoded_slot(dv, p@, j));
    }

    let mut i4: usize = 0;
    while i4 < n
        invariant
            n == decls@.len(),
            dv == decls.deep_view(),
            i4 <= n,
            slots@.len() == n,
            forall|j: int|
                0 <= j < n ==> slot_view(slots@[j]) == decoded_slot(dv, p@, j),
            forall|j: int|
                0 <= j < i4 && !dv[j].optional ==> decoded_slot(dv, p@, j) is Some,
        decreases n - i4,
    {
        if !decls[i4].optional && slots[i4].is_none() {
            let e = DecodeError::MissingMandatoryField { identifier: decls[i4].identifier.clone() };
            proof {
                assert(slot_view(slots@[i4 as int]) is None);
                assert(first_missing_at(dv, p@, i4 as int));
                assert(!decode_ok(dv, p@));
            }
            return Err(e);
        }
        proof {
            if !dv[i4 as int].optional {
                assert(slot_view(slots@[i4 as int]) is Some);
            }
        }
        i4 = i4 + 1;
    }

    let rec = Record { values: slots };
    proof {
        assert(decode_ok(dv, p@));
        assert(rec@.len() == n);
        assert(forall|j: int| 0 <= j < n ==> rec@[j] == slot_view(rec.values@[j]));
    }
    Ok(rec)
}

/// Encode a record against a list of field declarations: emit one field per
/// mandatory declared field in declaration order, then one per present
/// optional declared field in declaration order. Encoding cannot fail.
pub fn encode(decls: &Vec<FieldDecl>, rec: &Record) -> (p: Paragraph)
    requires
        values_match(decls.deep_view(), rec@),
    ensures
        p@ == encode_spec(decls.deep_view(), rec@),
{
    let ghost dv = decls.deep_view();
    let ghost vals = rec@;
    let n = decls.len();
    proof {
        assert(rec.values@.len() == vals.len());
        assert(forall|j: int| 0 <= j < n ==> vals[j] == slot_view(rec.values@[j]));
    }

    let mut fields: Vec<Field> = Vec::new();
    proof {
        assert(dv.take(0) =~= Seq::<DeclView>::empty());
        assert(fields.deep_view() =~= mandatory_fields(dv.take(0), vals.take(0)));
    }
    let mut i: usize = 0;
    while i < n
        invariant
            n == decls@.len(),
            dv == decls.deep_view(),
            vals == rec@,
            values_match(dv, vals),
            rec.values@.len() == vals.len(),
            forall|j: int| 0 <= j < n ==> vals[j] == slot_view(rec.values@[j]),
            i <= n,
            fields.deep_view() == mandatory_fields(dv.take(i as int), vals.take(i as int)),
        decreases n - i,
    {
        proof {
            assert(dv.take(i as int + 1).last() == dv[i as int]);
            assert(dv.take(i as int + 1).drop_last() =~= dv.take(i as int));
            assert(vals.take(i as int + 1).last() == vals[i as int]);
            assert(vals.take(i as int + 1).drop_last() =~= vals.take(i as int));
        }
        if !decls[i].optional {
            let name = ident_to_parse(decls[i].identifier.as_str());
            let value = rec.values[i].as_ref().unwrap().clone();
            let f = Field { name, value };
            proof {
                assert(f@ == FieldView {
                    name: transform_name(dv[i as int].identifier),
                    value: vals[i as int]->0,
                });
            }
            fields.push(f);
            proof {
                assert(fields.deep_view() =~= mandatory_fields(
                    dv.take(i as int + 1),
                    vals.take(i as int + 1),
                ));
            }
        }
        i = i + 1;
    }
    proof {
        assert(dv.take(n as int) =~= dv);
        assert(vals.take(n as int) =~= vals);
        assert(optional_fields(dv.take(0), vals.take(0)) =~= Seq::<FieldView>::empty());
        assert(fields.deep_view() =~= mandatory_fields(dv, vals) + optional_fields(
            dv.take(0),
            vals.take(0),
        ));
    }

    let mut i2: usize = 0;
    while i2 < n
        invariant
            n == decls@.len(),
            dv == decls.deep_view(),
            vals == rec@,
            values_match(dv, vals),
            rec.values@.len() == vals.len(),
            forall|j: int| 0 <= j < n ==> vals[j] == slot_view(rec.values@[j]),
            i2 <= n,
            fields.deep_view() == mandatory_fields(dv, vals) + optional_fields(
                dv.take(i2 as int),
                vals.take(i2 as int),
            ),
        decreases n - i2,
    {
        proof {
            assert(dv.take(i2 as int + 1).last() == dv[i2 as int]);
            assert(dv.take(i2 as int + 1).drop_last() =~= dv.take(i2 as int));
            assert(vals.take(i2 as int + 1).last() == vals[i2 as int]);
            assert(vals.take(i2 as int + 1).drop_last() =~= vals.take(i2 as int));
        }
        if decls[i2].optional && rec.values[i2].is_some() {
            let name = ident_to_parse(decls[i2].identifier.as_str());
            let value = rec.values[i2].as_ref().unwrap().clone();
            let f = Field { name, value };
            proof {
                assert(f@ == FieldView {
                    name: transform_name(dv[i2 as int].identifier),
                    value: vals[i2 as int]->0,
                });
            }
            let ghost before = fields.deep_view();
            fields.push(f);
            proof {
                assert(vals[i2 as int] is Some);
                assert(fields.deep_view() =~= before.push(f@));
                assert(before.push(f@) =~= mandatory_fields(dv, vals) + optional_fields(
                    dv.take(i2 as int + 1),
                    vals.take(i2 as int + 1),
                ));
            }
        } else {
            proof {
                assert(optional_fields(dv.take(i2 as int + 1), vals.take(i2 as int + 1))
                    == optional_fields(dv.take(i2 as int), vals.take(i2 as int)));
            }
        }
        i2 = i2 + 1;
    }
    let p = Paragraph { fields };
    proof {
        assert(dv.take(n as int) =~= dv);
        assert(vals.take(n as int) =~= vals);
        assert(p@ == encode_spec(dv, vals));
    }
    p
}

} // verus!
