//! The `@relation` field attribute: its rendering and its parser.

use vstd::prelude::*;

use crate::text::{opt_view, seq_views, spec_join, spec_split, strip_pre, strip_suf, join_str,
    split_str, strip_prefix_str, strip_suffix_str, starts_with_str};
use crate::translators::error::ParseError;

verus! {

/// The mathematical shape of a relation attribute.
pub struct RelationV {
    pub map: Option<Seq<char>>,
    pub fields: Option<Seq<Seq<char>>>,
    pub references: Option<Seq<Seq<char>>>,
    pub on_update: Option<Seq<char>>,
    pub on_delete: Option<Seq<char>>,
}

/// The `@relation` attribute of one field.
#[derive(Debug)]
pub struct Relation {
    pub map: Option<String>,
    pub fields: Option<Vec<String>>,
    pub references: Option<Vec<String>>,
    pub on_update: Option<String>,
    pub on_delete: Option<String>,
}

impl View for Relation {
    type V = RelationV;

    open spec fn view(&self) -> RelationV {
        RelationV {
            map: opt_view(self.map),
            fields: match self.fields {
                Some(v) => Some(seq_views(v@)),
                None => None,
            },
            references: match self.references {
                Some(v) => Some(seq_views(v@)),
                None => None,
            },
            on_update: opt_view(self.on_update),
            on_delete: opt_view(self.on_delete),
        }
    }
}

/// The rendered argument pieces, in their fixed order, one per present part.
pub open spec fn relation_parts(r: RelationV) -> Seq<Seq<char>> {
    let p0 = Seq::<Seq<char>>::empty();
    let p1 = if r.fields is Some {
        p0.push("fields: ["@ + spec_join(r.fields->0, ", "@) + "]"@)
    } else {
        p0
    };
    let p2 = if r.references is Some {
        p1.push("references: ["@ + spec_join(r.references->0, ", "@) + "]"@)
    } else {
        p1
    };
    let p3 = if r.map is Some {
        p2.push("map: \""@ + r.map->0 + "\""@)
    } else {
        p2
    };
    let p4 = if r.on_delete is Some {
        p3.push("onDelete: "@ + r.on_delete->0)
    } else {
        p3
    };
    if r.on_update is Some {
        p4.push("onUpdate: "@ + r.on_update->0)
    } else {
        p4
    }
}

/// The rendered attribute: the present parts, comma-separated, between
/// `@relation(` and `)`.
pub open spec fn relation_text(r: RelationV) -> Seq<char> {
    "@relation("@ + spec_join(relation_parts(r), ", "@) + ")"@
}

/// The parse state while the argument pieces are read.
pub struct RelationAcc {
    pub fields: Seq<Seq<char>>,
    pub references: Seq<Seq<char>>,
    pub map: Seq<char>,
    pub on_update: Seq<char>,
    pub on_delete: Seq<char>,
}

/// The empty parse state.
pub open spec fn rel_acc_init() -> RelationAcc {
    RelationAcc {
        fields: Seq::empty(),
        references: Seq::empty(),
        map: Seq::empty(),
        on_update: Seq::empty(),
        on_delete: Seq::empty(),
    }
}

/// One argument piece folded into the parse state, dispatched by its key
/// prefix; a piece matching no key is a hard failure.
pub open spec fn spec_rel_piece(acc: RelationAcc, piece: Seq<char>) -> Result<
    RelationAcc,
    ParseError,
> {
    if "fields:"@.is_prefix_of(piece) {
        match strip_pre(piece, "fields:["@) {
            None => Err(ParseError::MalformedRelation),
            Some(t) => match strip_suf(t, "]"@) {
                None => Err(ParseError::MalformedRelation),
                Some(inner) => Ok(
                    RelationAcc { fields: acc.fields + spec_split(inner, ", "@), ..acc },
                ),
            },
        }
    } else if "references:"@.is_prefix_of(piece) {
        match strip_pre(piece, "references:["@) {
            None => Err(ParseError::MalformedRelation),
            Some(t) => match strip_suf(t, "]"@) {
                None => Err(ParseError::MalformedRelation),
                Some(inner) => Ok(
                    RelationAcc { references: acc.references + spec_split(inner, ", "@), ..acc },
                ),
            },
        }
    } else if "onDelete:"@.is_prefix_of(piece) {
        Ok(RelationAcc { on_delete: piece.skip("onDelete:"@.len() as int), ..acc })
    } else if "onUpdate:"@.is_prefix_of(piece) {
        Ok(RelationAcc { on_update: piece.skip("onUpdate:"@.len() as int), ..acc })
    } else if "map:"@.is_prefix_of(piece) {
        match strip_pre(piece, "map:\""@) {
            None => Err(ParseError::MalformedRelation),
            Some(t) => match strip_suf(t, "\""@) {
                None => Err(ParseError::MalformedRelation),
                Some(inner) => Ok(RelationAcc { map: inner, ..acc }),
            },
        }
    } else {
        Err(ParseError::UnknownRelationKey)
    }
}

/// The argument pieces folded left to right into the parse state.
pub open spec fn spec_rel_pieces(pieces: Seq<Seq<char>>, acc: RelationAcc) -> Result<
    RelationAcc,
    ParseError,
>
    decreases pieces.len(),
{
    if pieces.len() == 0 {
        Ok(acc)
    } else {
        match spec_rel_piece(acc, pieces[0]) {
            Err(e) => Err(e),
            Ok(acc2) => spec_rel_pieces(pieces.skip(1), acc2),
        }
    }
}

/// The final parse state turned into a relation: parts that stayed empty are
/// absent.
pub open spec fn spec_finalize_relation(acc: RelationAcc) -> RelationV {
    RelationV {
        fields: if acc.fields.len() > 0 {
            Some(acc.fields)
        } else {
            None
        },
        references: if acc.references.len() > 0 {
            Some(acc.references)
        } else {
            None
        },
        map: if acc.map.len() > 0 {
            Some(acc.map)
        } else {
            None
        },
        on_update: if acc.on_update.len() > 0 {
            Some(acc.on_update)
        } else {
            None
        },
        on_delete: if acc.on_delete.len() > 0 {
            Some(acc.on_delete)
        } else {
            None
        },
    }
}

/// The attribute text parsed into a relation: the text between `@relation(`
/// and `)` is split on `", "` and each piece is dispatched by its key.
pub open spec fn spec_parse_relation(s: Seq<char>) -> Result<RelationV, ParseError> {
    match strip_pre(s, "@relation("@) {
        None => Err(ParseError::MalformedRelation),
        Some(t1) => match strip_suf(t1, ")"@) {
            None => Err(ParseError::MalformedRelation),
            Some(t2) => match spec_rel_pieces(spec_split(t2, ", "@), rel_acc_init()) {
                Err(e) => Err(e),
                Ok(acc) => Ok(spec_finalize_relation(acc)),
            },
        },
    }
}

impl Relation {
    /// The attribute rendered as text.
    pub fn as_text(&self) -> (r: String)
        ensures
            r@ == relation_text(self@),
    {
        let mut parts: Vec<String> = Vec::new();
        if let Some(fs) = &self.fields {
            let mut p = String::new();
            p.append("fields: [");
            p.append(join_str(fs, ", ").as_str());
            p.append("]");
            parts.push(p);
        }
        if let Some(rs) = &self.references {
            let mut p = String::new();
            p.append("references: [");
            p.append(join_str(rs, ", ").as_str());
            p.append("]");
            parts.push(p);
        }
        if let Some(m) = &self.map {
            let mut p = String::new();
            p.append("map: \"");
            p.append(m.as_str());
            p.append("\"");
            parts.push(p);
        }
        if let Some(d) = &self.on_delete {
            let mut p = String::new();
            p.append("onDelete: ");
            p.append(d.as_str());
            parts.push(p);
        }
        if let Some(u) = &self.on_update {
            let mut p = String::new();
            p.append("onUpdate: ");
            p.append(u.as_str());
            parts.push(p);
        }
        proof {
            assert(seq_views(parts@) =~~= relation_parts(self@));
        }
        let mut r = String::new();
        r.append("@relation(");
        r.append(join_str(&parts, ", ").as_str());
        r.append(")");
        proof {
            assert(r@ =~= relation_text(self@));
        }
        r
    }

    /// Reads a rendered relation attribute back into a relation. An argument
    /// piece with an unknown key, or a known key with a value not shaped as
    /// that key demands, aborts with an error.
    pub fn from_string(string: &str) -> (r: Result<Relation, ParseError>)
        ensures
            match r {
                Ok(rel) => spec_parse_relation(string@) == Ok::<RelationV, ParseError>(rel@),
                Err(e) => spec_parse_relation(string@) == Err::<RelationV, ParseError>(e),
            },
    {
        let t1 = match strip_prefix_str(string, "@relation(") {
            Some(t) => t,
            None => {
                return Err(ParseError::MalformedRelation);
            },
        };
        let t2 = match strip_suffix_str(t1.as_str(), ")") {
            Some(t) => t,
            None => {
                return Err(ParseError::MalformedRelation);
            },
        };
        proof {
            reveal_strlit(", ");
        }
        let pieces = split_str(t2.as_str(), ", ");
        let ghost piecesv = seq_views(pieces@);
        let mut this_fields: Vec<String> = Vec::new();
        let mut this_references: Vec<String> = Vec::new();
        let mut this_map: String = String::new();
        let mut this_on_update: String = String::new();
        let mut this_on_delete: String = String::new();
        let mut i: usize = 0;
        proof {
            assert(piecesv.skip(0) =~= piecesv);
            assert(seq_views(this_fields@) =~= Seq::<Seq<char>>::empty());
            assert(seq_views(this_references@) =~= Seq::<Seq<char>>::empty());
        }
        while i < pieces.len()
            invariant
                piecesv == seq_views(pieces@),
                0 <= i <= pieces@.len(),
                spec_rel_pieces(piecesv, rel_acc_init()) == spec_rel_pieces(
                    piecesv.skip(i as int),
                    RelationAcc {
                        fields: seq_views(this_fields@),
                        references: seq_views(this_references@),
                        map: this_map@,
                        on_update: this_on_update@,
                        on_delete: this_on_delete@,
                    },
                ),
                spec_parse_relation(string@) == (match spec_rel_pieces(piecesv, rel_acc_init()) {
                    Err(e) => Err::<RelationV, ParseError>(e),
                    Ok(acc) => Ok::<RelationV, ParseError>(spec_finalize_relation(acc)),
                }),
            decreases pieces@.len() - i,
        {
            proof {
                reveal_strlit(", ");
            }
            let ghost acc_before = RelationAcc {
                fields: seq_views(this_fields@),
                references: seq_views(this_references@),
                map: this_map@,
                on_update: this_on_update@,
                on_delete: this_on_delete@,
            };
            proof {
                assert(piecesv.skip(i as int)[0] == piecesv[i as int]);
                assert(piecesv.skip(i as int).skip(1) =~= piecesv.skip(i + 1));
            }
            let ghost step = spec_rel_piece(acc_before, piecesv[i as int]);
            let piece = &pieces[i];
            if starts_with_str(piece.as_str(), "fields:") {
                let inner = match strip_prefix_str(piece.as_str(), "fields:[") {
                    Some(t) => t,
                    None => {
                        proof {
                            assert(step == Err::<RelationAcc, ParseError>(ParseError::MalformedRelation));
                        }
                        return Err(ParseError::MalformedRelation);
                    },
                };
                let inner = match strip_suffix_str(inner.as_str(), "]") {
                    Some(t) => t,
                    None => {
                        proof {
                            assert(step == Err::<RelationAcc, ParseError>(ParseError::MalformedRelation));
                        }
                        return Err(ParseError::MalformedRelation);
                    },
                };
                let mut subs = split_str(inner.as_str(), ", ");
                this_fields.append(&mut subs);
                proof {
                    assert(seq_views(this_fields@) =~~= acc_before.fields + spec_split(
                        inner@,
                        ", "@,
                    ));
                }
            } else if starts_with_str(piece.as_str(), "references:") {
                let inner = match strip_prefix_str(piece.as_str(), "references:[") {
                    Some(t) => t,
                    None => {
                        proof {
                            assert(step == Err::<RelationAcc, ParseError>(ParseError::MalformedRelation));
                        }
                        return Err(ParseError::MalformedRelation);
                    },
                };
                let inner = match strip_suffix_str(inner.as_str(), "]") {
                    Some(t) => t,
                    None => {
                        proof {
                            assert(step == Err::<RelationAcc, ParseError>(ParseError::MalformedRelation));
                        }
                        return Err(ParseError::MalformedRelation);
                    },
                };
                let mut subs = split_str(inner.as_str(), ", ");
                this_references.append(&mut subs);
                proof {
                    assert(seq_views(this_references@) =~~= acc_before.references + spec_split(
                        inner@,
                        ", "@,
                    ));
                }
            } else if starts_with_str(piece.as_str(), "onDelete:") {
                this_on_delete = match strip_prefix_str(piece.as_str(), "onDelete:") {
                    Some(t) => t,
                    None => {
                        proof {
                            assert(step == Err::<RelationAcc, ParseError>(ParseError::MalformedRelation));
                        }
                        return Err(ParseError::MalformedRelation);
                    },
                };
            } else if starts_with_str(piece.as_str(), "onUpdate:") {
                this_on_update = match strip_prefix_str(piece.as_str(), "onUpdate:") {
                    Some(t) => t,
                    None => {
                        proof {
                            assert(step == Err::<RelationAcc, ParseError>(ParseError::MalformedRelation));
                        }
                        return Err(ParseError::MalformedRelation);
                    },
                };
            } else if starts_with_str(piece.as_str(), "map:") {
                let inner = match strip_prefix_str(piece.as_str(), "map:\"") {
                    Some(t) => t,
                    None => {
                        proof {
                            assert(step == Err::<RelationAcc, ParseError>(ParseError::MalformedRelation));
                        }
                        return Err(ParseError::MalformedRelation);
                    },
                };
                this_map = match strip_suffix_str(inner.as_str(), "\"") {
                    Some(t) => t,
                    None => {
                        proof {
                            assert(step == Err::<RelationAcc, ParseError>(ParseError::MalformedRelation));
                        }
                        return Err(ParseError::MalformedRelation);
                    },
                };
            } else {
                proof {
                    assert(step == Err::<RelationAcc, ParseError>(ParseError::UnknownRelationKey));
                }
                return Err(ParseError::UnknownRelationKey);
            }
            i += 1;
        }
        proof {
            assert(piecesv.skip(piecesv.len() as int) =~= Seq::<Seq<char>>::empty());
        }
        let fields = if this_fields.len() > 0 {
            Some(this_fields)
        } else {
            None
        };
        let references = if this_references.len() > 0 {
            Some(this_references)
        } else {
            None
        };
        let map = if this_map.as_str().unicode_len() > 0 {
            Some(this_map)
        } else {
            None
        };
        let on_update = if this_on_update.as_str().unicode_len() > 0 {
            Some(this_on_update)
        } else {
            None
        };
        let on_delete = if this_on_delete.as_str().unicode_len() > 0 {
            Some(this_on_delete)
        } else {
            None
        };
        let rel = Relation { fields, references, map, on_update, on_delete };
        Ok(rel)
    }
}

/// Two relations are equal when every part spells the same.
impl PartialEq for Relation {
    fn eq(&self, other: &Self) -> (r: bool) {
        crate::text::opt_str_vec_eq(&self.fields, &other.fields)
            && crate::text::opt_str_vec_eq(&self.references, &other.references)
            && crate::text::opt_str_eq(&self.map, &other.map)
            && crate::text::opt_str_eq(&self.on_update, &other.on_update)
            && crate::text::opt_str_eq(&self.on_delete, &other.on_delete)
    }
}

impl vstd::std_specs::cmp::PartialEqSpecImpl for Relation {
    open spec fn obeys_eq_spec() -> bool {
        true
    }

    open spec fn eq_spec(&self, other: &Self) -> bool {
        self@ == other@
    }
}

/// Equality of two optional relations, by their parts.
pub fn rel_opt_eq(a: &Option<Relation>, b: &Option<Relation>) -> (r: bool)
    ensures
        r == (match (a, b) {
            (Some(x), Some(y)) => x@ == y@,
            (None, None) => true,
            _ => false,
        }),
{
    match (a, b) {
        (Some(x), Some(y)) => x == y,
        (None, None) => true,
        _ => false,
    }
}

} // verus!
