//! The constant reader: interprets the token stream of the designated
//! constants script as a sequence of `name = value` declarations and builds
//! the map from constant names to their already-flattened replacement text.

use vstd::prelude::*;
use crate::token::{Token, TokenModel};
use vstd::string::StringExecFns;

verus! {

/// A mapping from constant names to replacement text. Later insertions for
/// the same name overwrite earlier ones.
#[derive(Debug)]
pub struct ConstantsMap {
    entries: Vec<(String, String)>,
}

/// The map described by an entry list: entries are applied left to right,
/// so the latest entry for a key wins.
pub open spec fn entries_map(s: Seq<(String, String)>) -> Map<Seq<char>, Seq<char>>
    decreases s.len(),
{
    if s.len() == 0 {
        Map::empty()
    } else {
        entries_map(s.drop_last()).insert(s.last().0@, s.last().1@)
    }
}

impl View for ConstantsMap {
    type V = Map<Seq<char>, Seq<char>>;

    closed spec fn view(&self) -> Map<Seq<char>, Seq<char>> {
        entries_map(self.entries@)
    }
}

impl ConstantsMap {
    pub fn new() -> (r: ConstantsMap)
        ensures
            r@ == Map::<Seq<char>, Seq<char>>::empty(),
    {
        ConstantsMap { entries: Vec::new() }
    }

    /// Binds `name` to `value`, overwriting any earlier binding.
    pub fn insert(&mut self, name: String, value: String)
        ensures
            final(self)@ == old(self)@.insert(name@, value@),
    {
        let ghost before = self.entries@;
        self.entries.push((name, value));
        proof {
            assert(self.entries@.drop_last() =~= before);
        }
    }

    /// The replacement text bound to `name`, if any.
    pub fn get(&self, name: &String) -> (r: Option<&String>)
        ensures
            match r {
                Some(v) => self@.contains_key(name@) && v@ == self@[name@],
                None => !self@.contains_key(name@),
            },
    {
        let n = self.entries.len();
        proof {
            assert(self.entries@.subrange(0, n as int) =~= self.entries@);
        }
        let mut i: usize = n;
        while i > 0
            invariant
                i <= n,
                n == self.entries@.len(),
                forall|j: int| i <= j < n ==> #[trigger] self.entries@[j].0@ != name@,
                entries_map(self.entries@)[name@]
                    == entries_map(self.entries@.subrange(0, i as int))[name@],
                entries_map(self.entries@).contains_key(name@)
                    == entries_map(self.entries@.subrange(0, i as int)).contains_key(name@),
            decreases i,
        {
            i = i - 1;
            let ghost pre = self.entries@.subrange(0, i as int);
            proof {
                assert(self.entries@.subrange(0, i + 1 as int).drop_last() =~= pre);
                assert(self.entries@.subrange(0, i + 1 as int).last() == self.entries@[i as int]);
            }
            if self.entries[i].0.eq(name) {
                return Some(&self.entries[i].1);
            }
        }
        proof {
            assert(self.entries@.subrange(0, 0) =~= Seq::<(String, String)>::empty());
        }
        None
    }

    /// Whether `name` is bound.
    pub fn contains_key(&self, name: &String) -> (r: bool)
        ensures
            r == self@.contains_key(name@),
    {
        match self.get(name) {
            Some(_) => true,
            None => false,
        }
    }
}

/// The reader's state: a three-mode machine. Mode 0 seeks the start of a
/// declaration, mode 1 seeks the `=`, mode 2 accumulates the value text.
pub struct ReadState {
    pub map: Map<Seq<char>, Seq<char>>,
    pub mode: int,
    pub ignoring: bool,
    pub depth: int,
    pub key: Seq<char>,
    pub value: Seq<char>,
    pub needs_space: bool,
    pub can_return: bool,
    pub failed: bool,
}

pub open spec fn read_init() -> ReadState {
    ReadState {
        map: Map::empty(),
        mode: 0,
        ignoring: false,
        depth: 0,
        key: Seq::empty(),
        value: Seq::empty(),
        needs_space: false,
        can_return: false,
        failed: false,
    }
}

/// Commits the pending declaration and returns to seeking mode.
pub open spec fn read_commit(st: ReadState) -> ReadState {
    ReadState { map: st.map.insert(st.key, st.value), mode: 0, ..st }
}

pub open spec fn read_failed(st: ReadState) -> ReadState {
    ReadState { failed: true, ..st }
}

/// Appends a value fragment that may need a separating space before it.
pub open spec fn read_append_spaced(st: ReadState, s: Seq<char>) -> ReadState {
    let v = if st.needs_space { st.value + " "@ + s } else { st.value + s };
    ReadState { value: v, needs_space: true, can_return: st.depth == 0, ..st }
}

/// Appends a value fragment that binds tightly on both sides.
pub open spec fn read_append_tight(st: ReadState, s: Seq<char>) -> ReadState {
    ReadState { value: st.value + s, needs_space: false, can_return: false, ..st }
}

/// One step of the reader over one token.
pub open spec fn read_step(st: ReadState, t: TokenModel) -> ReadState {
    if st.failed {
        st
    } else if st.ignoring {
        match t {
            TokenModel::IgnoreEnd => ReadState { ignoring: false, ..st },
            _ => st,
        }
    } else {
        match t {
            TokenModel::NewLine => {
                if st.mode == 2 && st.can_return {
                    read_commit(st)
                } else {
                    st
                }
            },
            TokenModel::Semicolon => {
                if st.mode == 2 && st.can_return {
                    read_commit(st)
                } else {
                    read_failed(st)
                }
            },
            TokenModel::IgnoreBegin => {
                if st.mode == 0 {
                    ReadState { ignoring: true, ..st }
                } else if st.mode == 2 && st.can_return {
                    read_commit(st)
                } else {
                    read_failed(st)
                }
            },
            TokenModel::IgnoreEnd => read_failed(st),
            TokenModel::DeformatBegin => read_failed(st),
            TokenModel::DeformatEnd => read_failed(st),
            TokenModel::Whitespace(_) => st,
            TokenModel::LongComment(_) => st,
            TokenModel::ShortComment(_) => st,
            TokenModel::Identifier(s) => {
                if st.mode == 0 {
                    ReadState { key: s, mode: 1, ..st }
                } else if st.mode == 1 {
                    read_failed(st)
                } else {
                    if st.map.contains_key(s) {
                        read_append_spaced(st, st.map[s])
                    } else {
                        read_failed(st)
                    }
                }
            },
            TokenModel::Equal => {
                if st.mode == 1 {
                    ReadState {
                        mode: 2,
                        value: Seq::empty(),
                        needs_space: false,
                        can_return: false,
                        depth: 0,
                        ..st
                    }
                } else {
                    read_failed(st)
                }
            },
            TokenModel::Literal(s) => {
                if st.mode == 2 {
                    read_append_spaced(st, s)
                } else {
                    read_failed(st)
                }
            },
            TokenModel::Symbol(s) => {
                if st.mode == 2 {
                    read_append_tight(st, s)
                } else {
                    read_failed(st)
                }
            },
            TokenModel::Dot => {
                if st.mode == 2 {
                    read_append_tight(st, "."@)
                } else {
                    read_failed(st)
                }
            },
            TokenModel::OpenBracket(s) => {
                if st.mode == 2 {
                    ReadState { depth: st.depth + 1, ..read_append_tight(st, s) }
                } else {
                    read_failed(st)
                }
            },
            TokenModel::CloseBracket(s) => {
                if st.mode == 2 {
                    if st.depth <= 0 {
                        read_failed(st)
                    } else {
                        let st2 = ReadState { depth: st.depth - 1, ..read_append_tight(st, s) };
                        ReadState { can_return: st2.depth == 0, ..st2 }
                    }
                } else {
                    read_failed(st)
                }
            },
        }
    }
}

/// The reader's state after all tokens.
pub open spec fn read_fold(ts: Seq<TokenModel>) -> ReadState
    decreases ts.len(),
{
    if ts.len() == 0 {
        read_init()
    } else {
        read_step(read_fold(ts.drop_last()), ts.last())
    }
}

/// The constants map read from a token stream, or `None` when the stream is
/// not a well-formed sequence of declarations.
pub open spec fn read_result(ts: Seq<TokenModel>) -> Option<Map<Seq<char>, Seq<char>>> {
    let st = read_fold(ts);
    if st.failed {
        None
    } else if st.mode == 0 {
        Some(st.map)
    } else if st.mode == 2 && st.can_return {
        Some(st.map.insert(st.key, st.value))
    } else {
        None
    }
}

proof fn lemma_read_failed_sticky(ts: Seq<TokenModel>, i: int)
    requires
        0 <= i <= ts.len(),
        read_fold(ts.subrange(0, i)).failed,
    ensures
        read_fold(ts).failed,
    decreases ts.len() - i,
{
    if i == ts.len() {
        assert(ts.subrange(0, i) =~= ts);
    } else {
        assert(ts.subrange(0, i + 1).drop_last() =~= ts.subrange(0, i));
        assert(ts.subrange(0, i + 1).last() == ts[i]);
        lemma_read_failed_sticky(ts, i + 1);
    }
}

fn join_spaced(value: &mut String, fragment: &str, needs_space: bool)
    ensures
        final(value)@ == (if needs_space {
            old(value)@ + " "@ + fragment@
        } else {
            old(value)@ + fragment@
        }),
{
    if needs_space {
        value.append(" ");
    }
    value.append(fragment);
}

fn owned_message(prefix: &str, detail: &str) -> String {
    let mut m = prefix.to_owned();
    m.append(detail);
    m
}

/// Reads a token stream as constant declarations. Returns the constants map,
/// or an error describing the first malformed declaration; the result is `Err`
/// exactly when the stream is not a well-formed sequence of declarations.
pub fn get_constants_map(source: &Vec<Token>) -> (r: Result<ConstantsMap, String>)
    ensures
        r is Ok <==> read_result(source.deep_view()) is Some,
        r is Ok ==> r->Ok_0@ == read_result(source.deep_view())->Some_0,
{
    let ghost ts = source.deep_view();
    let mut map = ConstantsMap::new();
    let mut mapper_state: u8 = 0;
    let mut ignoring = false;
    let mut bracket_depth: usize = 0;
    let mut key = String::new();
    let mut value = String::new();
    let mut needs_space = false;
    let mut can_return = false;

    let n = source.len();
    let mut i: usize = 0;
    while i < n
        invariant
            i <= n,
            n == ts.len(),
            ts == source.deep_view(),
            bracket_depth <= i,
            ({
                let st = read_fold(ts.subrange(0, i as int));
                &&& !st.failed
                &&& st.map == map@
                &&& st.mode == mapper_state as int
                &&& mapper_state <= 2
                &&& st.ignoring == ignoring
                &&& st.depth == bracket_depth as int
                &&& st.key == key@
                &&& st.value == value@
                &&& st.needs_space == needs_space
                &&& st.can_return == can_return
            }),
        decreases n - i,
    {
        proof {
            assert(ts.subrange(0, i + 1 as int).drop_last() =~= ts.subrange(0, i as int));
            assert(ts.subrange(0, i + 1 as int).last() == ts[i as int]);
            assert(source.deep_view()[i as int] == source@[i as int].deep_view());
        }
        let t = &source[i];

        if ignoring {
            match t {
                Token::IgnoreEnd => { ignoring = false; },
                _ => {},
            }
        } else {
            match t {
                Token::NewLine => {
                    if mapper_state == 2 && can_return {
                        map.insert(key.clone(), value.clone());
                        mapper_state = 0;
                    }
                },
                Token::Semicolon => {
                    if mapper_state == 2 && can_return {
                        map.insert(key.clone(), value.clone());
                        mapper_state = 0;
                    } else if mapper_state == 0 {
                        proof { lemma_read_failed_sticky(ts, i + 1); }
                        return Err("Reached semicolon with no associated statement".to_owned());
                    } else {
                        proof { lemma_read_failed_sticky(ts, i + 1); }
                        return Err(owned_message("Unexpected semicolon in assignment for ", key.as_str()));
                    }
                },
                Token::IgnoreBegin => {
                    if mapper_state == 0 {
                        ignoring = true;
                    } else if mapper_state == 2 && can_return {
                        map.insert(key.clone(), value.clone());
                        mapper_state = 0;
                    } else {
                        proof { lemma_read_failed_sticky(ts, i + 1); }
                        return Err(owned_message(
                            "Unexpected begin-ignore declaration in assignment for ", key.as_str()));
                    }
                },
                Token::IgnoreEnd => {
                    proof { lemma_read_failed_sticky(ts, i + 1); }
                    return Err("Reached unpaired end-ignore declaration".to_owned());
                },
                Token::DeformatBegin | Token::DeformatEnd => {
                    proof { lemma_read_failed_sticky(ts, i + 1); }
                    return Err("Deformatting is not supported in the RCF user_event".to_owned());
                },
                Token::Whitespace(_) => {},
                Token::LongComment(_) => {},
                Token::ShortComment(_) => {},
                Token::Identifier(s) => {
                    if mapper_state == 0 {
                        key = s.clone();
                        mapper_state = 1;
                    } else if mapper_state == 1 {
                        proof { lemma_read_failed_sticky(ts, i + 1); }
                        return Err(owned_message("Expected '=', got identifier ", s.as_str()));
                    } else {
                        let looked_up = map.get(s);
                        match looked_up {
                            Some(r) => {
                                let fragment = r.clone();
                                join_spaced(&mut value, fragment.as_str(), needs_space);
                                needs_space = true;
                                can_return = bracket_depth == 0;
                            },
                            None => {
                                proof { lemma_read_failed_sticky(ts, i + 1); }
                                return Err(owned_message(
                                    "Tried to assign to non-constant identifier ", s.as_str()));
                            },
                        }
                    }
                },
                Token::Equal => {
                    if mapper_state == 1 {
                        mapper_state = 2;
                        value = String::new();
                        needs_space = false;
                        can_return = false;
                        bracket_depth = 0;
                    } else {
                        proof { lemma_read_failed_sticky(ts, i + 1); }
                        return Err("Reached unexpected '='".to_owned());
                    }
                },
                Token::Literal(s) => {
                    if mapper_state == 2 {
                        join_spaced(&mut value, s.as_str(), needs_space);
                        needs_space = true;
                        can_return = bracket_depth == 0;
                    } else {
                        proof { lemma_read_failed_sticky(ts, i + 1); }
                        return Err(owned_message("Expected start statement, got literal ", s.as_str()));
                    }
                },
                Token::Symbol(s) => {
                    if mapper_state == 2 {
                        value.append(s.as_str());
                        needs_space = false;
                        can_return = false;
                    } else {
                        proof { lemma_read_failed_sticky(ts, i + 1); }
                        return Err(owned_message("Expected start statement, got symbol ", s.as_str()));
                    }
                },
                Token::Dot => {
                    if mapper_state == 2 {
                        value.append(".");
                        needs_space = false;
                        can_return = false;
                    } else {
                        proof { lemma_read_failed_sticky(ts, i + 1); }
                        return Err("Expected start statement, got '.'".to_owned());
                    }
                },
                Token::OpenBracket(s) => {
                    if mapper_state == 2 {
                        value.append(s.as_str());
                        needs_space = false;
                        can_return = false;
                        bracket_depth = bracket_depth + 1;
                    } else {
                        proof { lemma_read_failed_sticky(ts, i + 1); }
                        return Err(owned_message(
                            "Expected start statement, got open bracket ", s.as_str()));
                    }
                },
                Token::CloseBracket(s) => {
                    if mapper_state == 2 {
                        if bracket_depth == 0 {
                            proof { lemma_read_failed_sticky(ts, i + 1); }
                            return Err(owned_message("Reached unpaired close bracket ", s.as_str()));
                        }
                        bracket_depth = bracket_depth - 1;
                        value.append(s.as_str());
                        needs_space = false;
                        can_return = bracket_depth == 0;
                    } else {
                        proof { lemma_read_failed_sticky(ts, i + 1); }
                        return Err(owned_message(
                            "Expected start statement, got close bracket ", s.as_str()));
                    }
                },
            }
        }
        i = i + 1;
    }

    proof {
        assert(ts.subrange(0, n as int) =~= ts);
    }
    if mapper_state == 0 {
        Ok(map)
    } else if mapper_state == 1 {
        Err(owned_message("Unexpected end-of-file in assignment for ", key.as_str()))
    } else if can_return {
        map.insert(key.clone(), value.clone());
        Ok(map)
    } else {
        Err(owned_message("Unexpected end-of-file in assignment for ", key.as_str()))
    }
}

} // verus!
