//! The statement parser.
//!
//! Statements are recognized over a sliding window of three tokens; the
//! possessive forms consume one or two tokens more. Each statement updates a
//! store of normalized names: plain assignment replaces a value, possessive
//! statements merge a property into an owned object, and identifier
//! references copy the value they name at the point of use.
use vstd::prelude::*;

use crate::tokenizer::{tokens_model, Token, TokenV};
use crate::unicode::{lowercase_of, to_lowercase};
use crate::value::{clone_value, value_wf, Store, Value, ValueV};

verus! {

/// Why parsing failed.
#[derive(Debug, PartialEq)]
pub enum ParseError {
    /// The tokens of the statement starting at token index `at` fit no
    /// grammar rule.
    Unexpected { at: usize },
    /// A variable was read before any assignment to it.
    UndefinedVariable { name: String },
    /// A statement treated an object as a scalar, or a scalar as an object.
    TypeConflict { name: String },
}

/// The mathematical content of a parse error.
pub enum ParseErrV {
    Unexpected { at: int },
    UndefinedVariable { name: Seq<char> },
    TypeConflict { name: Seq<char> },
}

impl View for ParseError {
    type V = ParseErrV;

    open spec fn view(&self) -> ParseErrV {
        match self {
            ParseError::Unexpected { at } => ParseErrV::Unexpected { at: *at as int },
            ParseError::UndefinedVariable { name } => ParseErrV::UndefinedVariable {
                name: name@,
            },
            ParseError::TypeConflict { name } => ParseErrV::TypeConflict { name: name@ },
        }
    }
}

/// How a token in value position reads.
pub enum ResolvedV {
    /// A value: a literal, or a copy of the named variable's value.
    Val(ValueV),
    /// The token cannot stand for a value.
    NotValue,
    /// An identifier that no assignment has bound yet.
    Undefined(Seq<char>),
}

/// Reads a token in value position against a store: literals stand for
/// themselves, an identifier for a copy of the value under its normalized
/// name.
pub open spec fn spec_resolve(m: Map<Seq<char>, ValueV>, t: TokenV) -> ResolvedV {
    match t {
        TokenV::Number(n) => ResolvedV::Val(ValueV::Number(n)),
        TokenV::Text(s) => ResolvedV::Val(ValueV::Text(s)),
        TokenV::Identifier(var) => if m.contains_key(lowercase_of(var)) {
            ResolvedV::Val(m[lowercase_of(var)])
        } else {
            ResolvedV::Undefined(var)
        },
        _ => ResolvedV::NotValue,
    }
}

/// A plain assignment conflicts when it would silently turn an object into
/// a scalar or a scalar into an object.
pub open spec fn assign_conflicts(m: Map<Seq<char>, ValueV>, key: Seq<char>, v: ValueV) -> bool {
    m.contains_key(key) && ((m[key] is Object) != (v is Object))
}

/// The store after binding `key` to `v`.
pub open spec fn assign_key(m: Map<Seq<char>, ValueV>, key: Seq<char>, v: ValueV) -> Map<
    Seq<char>,
    ValueV,
> {
    m.insert(key, v)
}

/// A possessive statement conflicts when its owner already holds a scalar.
pub open spec fn merge_conflicts(m: Map<Seq<char>, ValueV>, owner_key: Seq<char>) -> bool {
    m.contains_key(owner_key) && !(m[owner_key] is Object)
}

/// The store after giving `owner_key` the property `prop_key = v`: an
/// existing object gains or replaces the property, an absent owner becomes
/// a one-property object.
pub open spec fn merge_key(
    m: Map<Seq<char>, ValueV>,
    owner_key: Seq<char>,
    prop_key: Seq<char>,
    v: ValueV,
) -> Map<Seq<char>, ValueV> {
    if m.contains_key(owner_key) {
        m.insert(owner_key, ValueV::Object(m[owner_key]->Object_0.insert(prop_key, v)))
    } else {
        m.insert(owner_key, ValueV::Object(map![prop_key => v]))
    }
}

/// Whether a token is the keyword `is`, case-insensitively.
pub open spec fn is_keyword_is(t: TokenV) -> bool {
    t is Keyword && lowercase_of(t->Keyword_0) == "is"@
}

/// What parsing from token `i` on does to the store `m`.
pub open spec fn spec_parse_from(ts: Seq<TokenV>, i: int, m: Map<Seq<char>, ValueV>) -> Result<
    Map<Seq<char>, ValueV>,
    ParseErrV,
>
    decreases ts.len() - i,
        when 0 <= i
{
    if i + 3 > ts.len() {
        Ok(m)
    } else {
        let a = ts[i];
        let b = ts[i + 1];
        let c = ts[i + 2];
        if !(a is Identifier) {
            Err(ParseErrV::Unexpected { at: i })
        } else {
            let name = a->Identifier_0;
            if is_keyword_is(b) {
                match spec_resolve(m, c) {
                    ResolvedV::Val(v) => if assign_conflicts(m, lowercase_of(name), v) {
                        Err(ParseErrV::TypeConflict { name })
                    } else {
                        spec_parse_from(ts, i + 3, assign_key(m, lowercase_of(name), v))
                    },
                    ResolvedV::NotValue => Err(ParseErrV::Unexpected { at: i }),
                    ResolvedV::Undefined(var) => Err(ParseErrV::UndefinedVariable { name: var }),
                }
            } else if b is Possessive && c is Identifier {
                let p = lowercase_of(b->Possessive_0);
                if p == "s"@ || p == "of"@ {
                    let owner = if p == "s"@ {
                        name
                    } else {
                        c->Identifier_0
                    };
                    let prop = if p == "s"@ {
                        c->Identifier_0
                    } else {
                        name
                    };
                    if i + 5 > ts.len() || !is_keyword_is(ts[i + 3]) {
                        Err(ParseErrV::Unexpected { at: i })
                    } else {
                        match spec_resolve(m, ts[i + 4]) {
                            ResolvedV::Val(v) => if merge_conflicts(m, lowercase_of(owner)) {
                                Err(ParseErrV::TypeConflict { name: owner })
                            } else {
                                spec_parse_from(
                                    ts,
                                    i + 5,
                                    merge_key(m, lowercase_of(owner), lowercase_of(prop), v),
                                )
                            },
                            ResolvedV::NotValue => Err(ParseErrV::Unexpected { at: i }),
                            ResolvedV::Undefined(var) => Err(
                                ParseErrV::UndefinedVariable { name: var },
                            ),
                        }
                    }
                } else if p == "has"@ || p == "have"@ {
                    if i + 4 > ts.len() {
                        Err(ParseErrV::Unexpected { at: i })
                    } else {
                        match spec_resolve(m, ts[i + 3]) {
                            ResolvedV::Val(v) => if merge_conflicts(m, lowercase_of(name)) {
                                Err(ParseErrV::TypeConflict { name })
                            } else {
                                spec_parse_from(
                                    ts,
                                    i + 4,
                                    merge_key(
                                        m,
                                        lowercase_of(name),
                                        lowercase_of(c->Identifier_0),
                                        v,
                                    ),
                                )
                            },
                            ResolvedV::NotValue => Err(ParseErrV::Unexpected { at: i }),
                            ResolvedV::Undefined(var) => Err(
                                ParseErrV::UndefinedVariable { name: var },
                            ),
                        }
                    }
                } else {
                    Err(ParseErrV::Unexpected { at: i })
                }
            } else {
                Err(ParseErrV::Unexpected { at: i })
            }
        }
    }
}

/// What parsing a token sequence yields, starting from the empty store.
pub open spec fn spec_parse(ts: Seq<TokenV>) -> Result<Map<Seq<char>, ValueV>, ParseErrV> {
    spec_parse_from(ts, 0, Map::empty())
}

fn word_is(w: &String, lit: &str) -> (r: bool)
    ensures
        r == (w@ == lit@),
{
    let other = String::from_str(lit);
    *w == other
}

fn keyword_is(tok: &Token) -> (r: bool)
    ensures
        r == is_keyword_is(tok@),
{
    match tok {
        Token::Keyword(k) => {
            let l = to_lowercase(k.as_str());
            word_is(&l, "is")
        },
        _ => false,
    }
}

fn poss_is(tok: &Token, lit: &str) -> (r: bool)
    ensures
        r == (tok@ is Possessive && lowercase_of(tok@->Possessive_0) == lit@),
{
    match tok {
        Token::Possessive(p) => {
            let l = to_lowercase(p.as_str());
            word_is(&l, lit)
        },
        _ => false,
    }
}

/// How a token in value position reads, as executable code.
pub(crate) enum Resolved {
    Val(Value),
    NotValue,
    Undefined(String),
}

fn resolve_value(store: &Store, tok: &Token) -> (r: Resolved)
    requires
        store.wf(),
    ensures
        match r {
            Resolved::Val(v) => spec_resolve(store@, tok@) == ResolvedV::Val(v@) && value_wf(v),
            Resolved::NotValue => spec_resolve(store@, tok@) == ResolvedV::NotValue,
            Resolved::Undefined(n) => spec_resolve(store@, tok@) == ResolvedV::Undefined(n@),
        },
{
    match tok {
        Token::Number(n) => Resolved::Val(Value::Number(*n)),
        Token::Text(s) => Resolved::Val(Value::Text(s.clone())),
        Token::Identifier(var) => {
            let key = to_lowercase(var.as_str());
            match store.get_cloned(&key) {
                Some(v) => Resolved::Val(v),
                None => Resolved::Undefined(var.clone()),
            }
        },
        _ => Resolved::NotValue,
    }
}

/// A plain assignment: replaces the value under the normalized name, unless
/// that would change a value between scalar and object.
fn assign_value(store: &mut Store, name: &String, val: Value) -> (r: Option<ParseError>)
    requires
        old(store).wf(),
        value_wf(val),
    ensures
        final (store).wf(),
        if assign_conflicts(old(store)@, lowercase_of(name@), val@) {
            &&& r matches Some(e) && e@ == (ParseErrV::TypeConflict { name: name@ })
            &&& final (store)@ == old(store)@
        } else {
            &&& r is None
            &&& final (store)@ == assign_key(old(store)@, lowercase_of(name@), val@)
        },
{
    let key = to_lowercase(name.as_str());
    let conflict: bool = match store.get(&key) {
        Some(Value::Object(_)) => !matches!(val, Value::Object(_)),
        Some(_) => matches!(val, Value::Object(_)),
        None => false,
    };
    if conflict {
        return Some(ParseError::TypeConflict { name: name.clone() });
    }
    store.insert(key, val);
    None
}

/// A possessive statement: gives the owner the property, creating the owned
/// object if the owner is unbound, and failing if the owner holds a scalar.
fn merge_value(store: &mut Store, owner: &String, prop: &String, val: Value) -> (r: Option<
    ParseError,
>)
    requires
        old(store).wf(),
        value_wf(val),
    ensures
        final (store).wf(),
        if merge_conflicts(old(store)@, lowercase_of(owner@)) {
            &&& r matches Some(e) && e@ == (ParseErrV::TypeConflict { name: owner@ })
            &&& final (store)@ == old(store)@
        } else {
            &&& r is None
            &&& final (store)@ == merge_key(
                old(store)@,
                lowercase_of(owner@),
                lowercase_of(prop@),
                val@,
            )
        },
{
    let okey = to_lowercase(owner.as_str());
    let pkey = to_lowercase(prop.as_str());
    match store.get_cloned(&okey) {
        Some(Value::Object(mut inner)) => {
            inner.insert(pkey, val);
            store.insert(okey, Value::Object(inner));
            None
        },
        Some(_) => Some(ParseError::TypeConflict { name: owner.clone() }),
        None => {
            let mut obj = Store::new();
            obj.insert(pkey, val);
            proof {
                assert(Map::<Seq<char>, ValueV>::empty().insert(pkey@, val@) =~= map![
                    pkey@ => val@,
                ]);
            }
            store.insert(okey, Value::Object(obj));
            None
        },
    }
}

/// Builds the name/value store a token sequence describes, or reports the
/// first statement that breaks the grammar.
#[verifier::loop_isolation(false)]
pub fn parse(tokens: Vec<Token>) -> (r: Result<Store, ParseError>)
    ensures
        r is Ok <==> spec_parse(tokens_model(tokens@)) is Ok,
        r matches Ok(st) ==> (spec_parse(tokens_model(tokens@)) matches Ok(m) && st@ == m
            && st.wf()),
        r matches Err(e) ==> (spec_parse(tokens_model(tokens@)) matches Err(se) && e@ == se),
{
    let ghost tsm = tokens_model(tokens@);
    let mut store = Store::new();
    let mut i: usize = 0;
    while tokens.len() >= 3 && i <= tokens.len() - 3
        invariant
            i <= tokens.len(),
            store.wf(),
            spec_parse_from(tsm, i as int, store@) == spec_parse(tsm),
        decreases tokens.len() - i,
    {
        let ghost i0 = i as int;
        let ghost m0 = store@;
        proof {
            assert(tsm[i0] == tokens@[i0]@);
            assert(tsm[i0 + 1] == tokens@[i0 + 1]@);
            assert(tsm[i0 + 2] == tokens@[i0 + 2]@);
        }
        match &tokens[i] {
            Token::Identifier(name) => {
                if keyword_is(&tokens[i + 1]) {
                    match resolve_value(&store, &tokens[i + 2]) {
                        Resolved::Val(v) => {
                            match assign_value(&mut store, name, v) {
                                Some(e) => {
                                    return Err(e);
                                },
                                None => {},
                            }
                            i = i + 3;
                        },
                        Resolved::NotValue => {
                            return Err(ParseError::Unexpected { at: i });
                        },
                        Resolved::Undefined(n) => {
                            return Err(ParseError::UndefinedVariable { name: n });
                        },
                    }
                } else {
                    let p_s = poss_is(&tokens[i + 1], "s");
                    let p_of = poss_is(&tokens[i + 1], "of");
                    let p_has = poss_is(&tokens[i + 1], "has") || poss_is(&tokens[i + 1], "have");
                    match &tokens[i + 2] {
                        Token::Identifier(other) => {
                            if p_s || p_of {
                                if tokens.len() - i < 5 || !keyword_is(&tokens[i + 3]) {
                                    return Err(ParseError::Unexpected { at: i });
                                }
                                match resolve_value(&store, &tokens[i + 4]) {
                                    Resolved::Val(v) => {
                                        let r = if p_s {
                                            merge_value(&mut store, name, other, v)
                                        } else {
                                            merge_value(&mut store, other, name, v)
                                        };
                                        match r {
                                            Some(e) => {
                                                return Err(e);
                                            },
                                            None => {},
                                        }
                                        i = i + 5;
                                    },
                                    Resolved::NotValue => {
                                        return Err(ParseError::Unexpected { at: i });
                                    },
                                    Resolved::Undefined(n) => {
                                        return Err(ParseError::UndefinedVariable { name: n });
                                    },
                                }
                            } else if p_has {
                                if tokens.len() - i < 4 {
                                    return Err(ParseError::Unexpected { at: i });
                                }
                                match resolve_value(&store, &tokens[i + 3]) {
                                    Resolved::Val(v) => {
                                        match merge_value(&mut store, name, other, v) {
                                            Some(e) => {
                                                return Err(e);
                                            },
                                            None => {},
                                        }
                                        i = i + 4;
                                    },
                                    Resolved::NotValue => {
                                        return Err(ParseError::Unexpected { at: i });
                                    },
                                    Resolved::Undefined(n) => {
                                        return Err(ParseError::UndefinedVariable { name: n });
                                    },
                                }
                            } else {
                                return Err(ParseError::Unexpected { at: i });
                            }
                        },
                        _ => {
                            return Err(ParseError::Unexpected { at: i });
                        },
                    }
                }
            },
            _ => {
                return Err(ParseError::Unexpected { at: i });
            },
        }
    }
    proof {
        assert(spec_parse_from(tsm, i as int, store@) == Ok::<Map<Seq<char>, ValueV>, ParseErrV>(
            store@,
        ));
    }
    Ok(store)
}

} // verus!
