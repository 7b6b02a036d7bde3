//! Textual codec for the persisted cache.
//!
//! The cache survives across runs as one JSON object,
//! `{"latlon":{"<key>":"<place-or-marker>", ...}}`. The format is this
//! program's own: it is both written and read only here, so the writer and
//! the strict reader are verified against each other, and a saved cache is
//! proved to load back to the same mapping. Any text the reader does not
//! accept yields the empty cache.
use crate::cache::{map_of, GeocodeCache};
use crate::strutil::push_char;
use vstd::prelude::*;

verus! {

/// A character as it appears inside a quoted string: quotes and
/// backslashes carry a backslash escape.
pub open spec fn spec_esc1(c: char) -> Seq<char> {
    if c == '"' || c == '\\' {
        seq!['\\', c]
    } else {
        seq![c]
    }
}

/// A whole string escaped.
pub open spec fn spec_esc(s: Seq<char>) -> Seq<char>
    decreases s.len(),
{
    if s.len() == 0 {
        Seq::empty()
    } else {
        spec_esc1(s[0]) + spec_esc(s.drop_first())
    }
}

/// A string escaped and surrounded by quotes.
pub open spec fn spec_quote(s: Seq<char>) -> Seq<char> {
    seq!['"'] + spec_esc(s) + seq!['"']
}

/// The opening of the cache object, up to and including the brace of the
/// inner map.
pub open spec fn spec_header() -> Seq<char> {
    seq!['{', '"', 'l', 'a', 't', 'l', 'o', 'n', '"', ':', '{']
}

/// Entry list of owned strings seen as a list of character sequences.
pub open spec fn view_entries(es: Seq<(String, String)>) -> Seq<(Seq<char>, Seq<char>)> {
    es.map_values(|p: (String, String)| (p.0@, p.1@))
}

/// The comma-separated serialization of the entries of the inner map.
pub open spec fn spec_ser_entries(es: Seq<(Seq<char>, Seq<char>)>) -> Seq<char>
    decreases es.len(),
{
    if es.len() == 0 {
        Seq::empty()
    } else {
        let head = spec_quote(es[0].0) + seq![':'] + spec_quote(es[0].1);
        if es.len() == 1 {
            head
        } else {
            head + seq![','] + spec_ser_entries(es.drop_first())
        }
    }
}

/// The full serialized cache text.
pub open spec fn spec_ser(es: Seq<(Seq<char>, Seq<char>)>) -> Seq<char> {
    spec_header() + spec_ser_entries(es) + seq!['}', '}']
}

/// Reads the body of a quoted string: everything up to the next unescaped
/// quote, unescaped and appended to `acc`, together with the remaining
/// input after that quote.
pub open spec fn spec_parse_strbody(s: Seq<char>, acc: Seq<char>) -> Option<(Seq<char>, Seq<char>)>
    decreases s.len(),
{
    if s.len() == 0 {
        None
    } else if s[0] == '"' {
        Some((acc, s.drop_first()))
    } else if s[0] == '\\' {
        if s.len() >= 2 && (s[1] == '"' || s[1] == '\\') {
            spec_parse_strbody(s.skip(2), acc.push(s[1]))
        } else {
            None
        }
    } else {
        spec_parse_strbody(s.drop_first(), acc.push(s[0]))
    }
}

/// Reads one quoted string from the front of the input.
pub open spec fn spec_parse_string(s: Seq<char>) -> Option<(Seq<char>, Seq<char>)> {
    if s.len() > 0 && s[0] == '"' {
        spec_parse_strbody(s.drop_first(), Seq::empty())
    } else {
        None
    }
}

/// Reads `"key":"value"` pairs separated by commas, ending at the exact
/// closing `}}` of the cache object.
pub open spec fn spec_parse_pairs(s: Seq<char>, acc: Seq<(Seq<char>, Seq<char>)>) -> Option<
    Seq<(Seq<char>, Seq<char>)>,
>
    decreases s.len(),
{
    match spec_parse_string(s) {
        None => None,
        Some((k, r1)) => if r1.len() == 0 || r1[0] != ':' {
            None
        } else {
            match spec_parse_string(r1.drop_first()) {
                None => None,
                Some((v, r2)) => {
                    let acc2 = acc.push((k, v));
                    if r2.len() == 2 && r2[0] == '}' && r2[1] == '}' {
                        Some(acc2)
                    } else if r2.len() >= 1 && r2[0] == ',' {
                        if r2.drop_first().len() < s.len() {
                            spec_parse_pairs(r2.drop_first(), acc2)
                        } else {
                            None
                        }
                    } else {
                        None
                    }
                },
            }
        },
    }
}

/// The entry list denoted by a cache text, or `None` where the text is not
/// a serialized cache.
pub open spec fn spec_parse(s: Seq<char>) -> Option<Seq<(Seq<char>, Seq<char>)>> {
    if s.len() >= 13 && s.subrange(0, 11) == spec_header() {
        let rest = s.skip(11);
        if rest[0] == '}' {
            if rest == seq!['}', '}'] {
                Some(Seq::empty())
            } else {
                None
            }
        } else {
            spec_parse_pairs(rest, Seq::empty())
        }
    } else {
        None
    }
}

/// The mapping denoted by a parsed entry list: later entries overwrite
/// earlier ones.
pub open spec fn map_of_pairs(es: Seq<(Seq<char>, Seq<char>)>) -> Map<Seq<char>, Seq<char>>
    decreases es.len(),
{
    if es.len() == 0 {
        Map::empty()
    } else {
        map_of_pairs(es.drop_last()).insert(es.last().0, es.last().1)
    }
}

/// The cache that loading a given text produces: the parsed mapping, or
/// the empty mapping where the text is not a serialized cache.
pub open spec fn spec_load(s: Seq<char>) -> Map<Seq<char>, Seq<char>> {
    match spec_parse(s) {
        Some(es) => map_of_pairs(es),
        None => Map::empty(),
    }
}

fn esc_append(out: &mut String, s: &str, i: usize)
    requires
        i <= s@.len(),
    ensures
        final(out)@ == old(out)@ + spec_esc(s@.skip(i as int)),
    decreases s@.len() - i,
{
    let n = s.unicode_len();
    if i == n {
        proof {
            assert(s@.skip(i as int).len() == 0);
            assert(out@ =~= out@ + spec_esc(s@.skip(i as int)));
        }
    } else {
        let c = s.get_char(i);
        let ghost before = out@;
        if c == '"' || c == '\\' {
            push_char(out, '\\');
            push_char(out, c);
        } else {
            push_char(out, c);
        }
        proof {
            assert(out@ =~= before + spec_esc1(c));
        }
        esc_append(out, s, i + 1);
        proof {
            assert(s@.skip(i as int)[0] == s@[i as int]);
            assert(s@.skip(i as int).drop_first() =~= s@.skip(i as int + 1));
            assert(out@ =~= before + spec_esc(s@.skip(i as int)));
        }
    }
}

fn append_quoted(out: &mut String, s: &String)
    ensures
        final(out)@ == old(out)@ + spec_quote(s@),
{
    let ghost before = out@;
    push_char(out, '"');
    esc_append(out, s.as_str(), 0);
    push_char(out, '"');
    proof {
        assert(s@.skip(0) =~= s@);
        assert(out@ =~= before + spec_quote(s@));
    }
}

fn ser_entries_at(out: &mut String, entries: &Vec<(String, String)>, i: usize)
    requires
        i <= entries@.len(),
    ensures
        final(out)@ == old(out)@ + spec_ser_entries(view_entries(entries@.skip(i as int))),
    decreases entries@.len() - i,
{
    let ghost before = out@;
    let ghost es = view_entries(entries@.skip(i as int));
    if i == entries.len() {
        proof {
            assert(es.len() == 0);
            assert(out@ =~= before + spec_ser_entries(es));
        }
    } else {
        append_quoted(out, &entries[i].0);
        push_char(out, ':');
        append_quoted(out, &entries[i].1);
        proof {
            assert(es[0] == (entries@[i as int].0@, entries@[i as int].1@));
        }
        if i + 1 < entries.len() {
            push_char(out, ',');
            ser_entries_at(out, entries, i + 1);
            proof {
                assert(es.drop_first() =~= view_entries(entries@.skip(i as int + 1)));
                assert(out@ =~= before + spec_ser_entries(es));
            }
        } else {
            proof {
                assert(es.len() == 1);
                assert(out@ =~= before + spec_ser_entries(es));
            }
        }
    }
}

impl GeocodeCache {
    /// Serializes the cache for saving; the result is exactly the text
    /// that `from_json` accepts.
    pub fn to_json(&self) -> (r: String)
        ensures
            r@ == spec_ser(view_entries(self.entries@)),
    {
        let mut out = String::new();
        push_char(&mut out, '{');
        push_char(&mut out, '"');
        push_char(&mut out, 'l');
        push_char(&mut out, 'a');
        push_char(&mut out, 't');
        push_char(&mut out, 'l');
        push_char(&mut out, 'o');
        push_char(&mut out, 'n');
        push_char(&mut out, '"');
        push_char(&mut out, ':');
        push_char(&mut out, '{');
        proof {
            assert(out@ =~= spec_header());
        }
        let ghost header = out@;
        ser_entries_at(&mut out, &self.entries, 0);
        push_char(&mut out, '}');
        push_char(&mut out, '}');
        proof {
            assert(self.entries@.skip(0) =~= self.entries@);
            assert(out@ =~= spec_ser(view_entries(self.entries@)));
        }
        out
    }

    /// Rebuilds a cache from persisted text. Text that is not a
    /// serialized cache yields the empty cache, so a missing or corrupt
    /// cache file never fails a run.
    pub fn from_json(s: &str) -> (r: GeocodeCache)
        ensures
            r.wf(),
            r@ == spec_load(s@),
    {
        match parse_cache_json(s) {
            None => GeocodeCache::new(),
            Some(entries) => {
                let mut c = GeocodeCache::new();
                let n = entries.len();
                let mut i: usize = 0;
                while i < n
                    invariant
                        n == entries@.len(),
                        0 <= i <= n,
                        c.wf(),
                        c@ == map_of_pairs(view_entries(entries@.take(i as int))),
                    decreases n - i,
                {
                    let k = entries[i].0.clone();
                    let v = entries[i].1.clone();
                    c.put(&k, v);
                    proof {
                        let taken = view_entries(entries@.take(i as int + 1));
                        assert(taken.drop_last() =~= view_entries(entries@.take(i as int)));
                        assert(taken.last() == (entries@[i as int].0@, entries@[i as int].1@));
                        assert(c@ =~= map_of_pairs(taken));
                    }
                    i += 1;
                }
                proof {
                    assert(entries@.take(n as int) =~= entries@);
                }
                c
            },
        }
    }
}

fn parse_string_at(s: &str, i: usize) -> (r: Option<(String, usize)>)
    requires
        i <= s@.len(),
    ensures
        match r {
            Some(p) => {
                &&& spec_parse_string(s@.skip(i as int)) == Some((p.0@, s@.skip(p.1 as int)))
                &&& i < p.1 <= s@.len()
            },
            None => spec_parse_string(s@.skip(i as int)) is None,
        },
{
    let n = s.unicode_len();
    if i == n {
        return None;
    }
    proof {
        assert(s@.skip(i as int)[0] == s@[i as int]);
    }
    if s.get_char(i) != '"' {
        return None;
    }
    proof {
        assert(s@.skip(i as int).drop_first() =~= s@.skip(i as int + 1));
    }
    let mut j: usize = i + 1;
    let mut acc = String::new();
    loop
        invariant
            i + 1 <= j <= n,
            n == s@.len(),
            i < n,
            s@[i as int] == '"',
            spec_parse_string(s@.skip(i as int)) == spec_parse_strbody(s@.skip(j as int), acc@),
        decreases n - j,
    {
        if j == n {
            proof {
                assert(s@.skip(j as int).len() == 0);
            }
            return None;
        }
        let c = s.get_char(j);
        proof {
            assert(s@.skip(j as int)[0] == s@[j as int]);
        }
        if c == '"' {
            proof {
                assert(s@.skip(j as int).drop_first() =~= s@.skip(j as int + 1));
            }
            return Some((acc, j + 1));
        } else if c == '\\' {
            if j + 1 == n {
                proof {
                    assert(s@.skip(j as int).len() == 1);
                }
                return None;
            }
            let c2 = s.get_char(j + 1);
            proof {
                assert(s@.skip(j as int)[1] == s@[j as int + 1]);
            }
            if c2 == '"' || c2 == '\\' {
                proof {
                    assert(s@.skip(j as int).skip(2) =~= s@.skip(j as int + 2));
                }
                push_char(&mut acc, c2);
                j += 2;
            } else {
                return None;
            }
        } else {
            proof {
                assert(s@.skip(j as int).drop_first() =~= s@.skip(j as int + 1));
            }
            push_char(&mut acc, c);
            j += 1;
        }
    }
}

fn parse_pairs_at(s: &str, start: usize) -> (r: Option<Vec<(String, String)>>)
    requires
        start <= s@.len(),
    ensures
        match r {
            Some(v) => spec_parse_pairs(s@.skip(start as int), Seq::empty()) == Some(
                view_entries(v@),
            ),
            None => spec_parse_pairs(s@.skip(start as int), Seq::empty()) is None,
        },
{
    let n = s.unicode_len();
    let mut pos = start;
    let mut out: Vec<(String, String)> = Vec::new();
    proof {
        assert(view_entries(out@) =~= Seq::<(Seq<char>, Seq<char>)>::empty());
    }
    loop
        invariant
            start <= pos <= n,
            n == s@.len(),
            spec_parse_pairs(s@.skip(start as int), Seq::empty()) == spec_parse_pairs(
                s@.skip(pos as int),
                view_entries(out@),
            ),
        decreases n - pos,
    {
        let parsed_key = parse_string_at(s, pos);
        match parsed_key {
            None => {
                return None;
            },
            Some((k, j1)) => {
                if j1 == n {
                    proof {
                        assert(s@.skip(j1 as int).len() == 0);
                    }
                    return None;
                }
                proof {
                    assert(s@.skip(j1 as int)[0] == s@[j1 as int]);
                }
                if s.get_char(j1) != ':' {
                    return None;
                }
                proof {
                    assert(s@.skip(j1 as int).drop_first() =~= s@.skip(j1 as int + 1));
                }
                let parsed_val = parse_string_at(s, j1 + 1);
                match parsed_val {
                    None => {
                        return None;
                    },
                    Some((v, j2)) => {
                        let ghost prev = view_entries(out@);
                        out.push((k, v));
                        proof {
                            assert(view_entries(out@) =~= prev.push(
                                (out@.last().0@, out@.last().1@),
                            ));
                        }
                        if j2 == n {
                            return None;
                        }
                        let c2 = s.get_char(j2);
                        proof {
                            assert(s@.skip(j2 as int)[0] == s@[j2 as int]);
                        }
                        if c2 == ',' {
                            proof {
                                assert(s@.skip(j2 as int).drop_first() =~= s@.skip(j2 as int + 1));
                            }
                            pos = j2 + 1;
                        } else if c2 == '}' {
                            if n - j2 == 2 {
                                let c3 = s.get_char(j2 + 1);
                                proof {
                                    assert(s@.skip(j2 as int)[1] == s@[j2 as int + 1]);
                                    assert(s@.skip(j2 as int).len() == 2);
                                }
                                if c3 == '}' {
                                    return Some(out);
                                } else {
                                    return None;
                                }
                            } else {
                                proof {
                                    assert(s@.skip(j2 as int).len() != 2);
                                }
                                return None;
                            }
                        } else {
                            return None;
                        }
                    },
                }
            },
        }
    }
}

/// Parses a whole cache text into its entry list; `None` exactly where the
/// text is not a serialized cache.
fn parse_cache_json(s: &str) -> (r: Option<Vec<(String, String)>>)
    ensures
        match r {
            Some(v) => spec_parse(s@) == Some(view_entries(v@)),
            None => spec_parse(s@) is None,
        },
{
    let n = s.unicode_len();
    if n < 13 {
        return None;
    }
    let header_ok = s.get_char(0) == '{' && s.get_char(1) == '"' && s.get_char(2) == 'l'
        && s.get_char(3) == 'a' && s.get_char(4) == 't' && s.get_char(5) == 'l' && s.get_char(6)
        == 'o' && s.get_char(7) == 'n' && s.get_char(8) == '"' && s.get_char(9) == ':'
        && s.get_char(10) == '{';
    proof {
        assert(forall|x: int| 0 <= x < 11 ==> s@.subrange(0, 11)[x] == s@[x]);
    }
    if !header_ok {
        proof {
            assert(s@.subrange(0, 11) != spec_header());
        }
        return None;
    }
    proof {
        assert(s@.subrange(0, 11) =~= spec_header());
        assert(s@.skip(11)[0] == s@[11]);
    }
    let c = s.get_char(11);
    if c == '}' {
        if n == 13 {
            let c2 = s.get_char(12);
            proof {
                assert(s@.skip(11)[1] == s@[12]);
            }
            if c2 == '}' {
                let out: Vec<(String, String)> = Vec::new();
                proof {
                    assert(s@.skip(11) =~= seq!['}', '}']);
                    assert(view_entries(out@) =~= Seq::<(Seq<char>, Seq<char>)>::empty());
                }
                return Some(out);
            } else {
                proof {
                    assert(s@.skip(11) != seq!['}', '}']) by {
                        assert(s@.skip(11)[1] == s@[12]);
                    }
                }
                return None;
            }
        } else {
            proof {
                assert(s@.skip(11).len() != 2);
            }
            return None;
        }
    } else {
        parse_pairs_at(s, 11)
    }
}

proof fn lemma_parse_strbody_of_esc(k: Seq<char>, rest: Seq<char>, acc: Seq<char>)
    ensures
        spec_parse_strbody(spec_esc(k) + seq!['"'] + rest, acc) == Some((acc + k, rest)),
    decreases k.len(),
{
    let s = spec_esc(k) + seq!['"'] + rest;
    if k.len() == 0 {
        assert(spec_esc(k).len() == 0);
        assert(s[0] == '"');
        assert(s.drop_first() =~= rest);
        assert(acc + k =~= acc);
    } else {
        let c = k[0];
        assert(spec_esc(k) == spec_esc1(c) + spec_esc(k.drop_first()));
        lemma_parse_strbody_of_esc(k.drop_first(), rest, acc.push(c));
        assert(acc.push(c) + k.drop_first() =~= acc + k);
        if c == '"' || c == '\\' {
            assert(s[0] == '\\');
            assert(s[1] == c);
            assert(s.skip(2) =~= spec_esc(k.drop_first()) + seq!['"'] + rest);
        } else {
            assert(s[0] == c);
            assert(s.drop_first() =~= spec_esc(k.drop_first()) + seq!['"'] + rest);
        }
    }
}

proof fn lemma_parse_string_of_quote(k: Seq<char>, rest: Seq<char>)
    ensures
        spec_parse_string(spec_quote(k) + rest) == Some((k, rest)),
{
    let s = spec_quote(k) + rest;
    assert(s[0] == '"');
    assert(s.drop_first() =~= spec_esc(k) + seq!['"'] + rest);
    lemma_parse_strbody_of_esc(k, rest, Seq::empty());
    assert(Seq::<char>::empty() + k =~= k);
}

proof fn lemma_parse_pairs_of_ser(es: Seq<(Seq<char>, Seq<char>)>, acc: Seq<(Seq<char>, Seq<char>)>)
    requires
        es.len() >= 1,
    ensures
        spec_parse_pairs(spec_ser_entries(es) + seq!['}', '}'], acc) == Some(acc + es),
    decreases es.len(),
{
    let s = spec_ser_entries(es) + seq!['}', '}'];
    let k = es[0].0;
    let v = es[0].1;
    if es.len() == 1 {
        let rest1 = seq![':'] + spec_quote(v) + seq!['}', '}'];
        assert(s =~= spec_quote(k) + rest1);
        lemma_parse_string_of_quote(k, rest1);
        assert(rest1[0] == ':');
        assert(rest1.drop_first() =~= spec_quote(v) + seq!['}', '}']);
        lemma_parse_string_of_quote(v, seq!['}', '}']);
        assert(acc.push((k, v)) =~= acc + es);
    } else {
        let tail = spec_ser_entries(es.drop_first());
        let after = seq![','] + tail + seq!['}', '}'];
        let rest1 = seq![':'] + spec_quote(v) + after;
        assert(s =~= spec_quote(k) + rest1);
        lemma_parse_string_of_quote(k, rest1);
        assert(rest1[0] == ':');
        assert(rest1.drop_first() =~= spec_quote(v) + after);
        lemma_parse_string_of_quote(v, after);
        assert(after[0] == ',');
        assert(after.drop_first() =~= tail + seq!['}', '}']);
        lemma_parse_pairs_of_ser(es.drop_first(), acc.push((k, v)));
        assert(acc.push((k, v)) + es.drop_first() =~= acc + es);
    }
}

/// A serialized cache parses back to exactly the entries it was written
/// from.
pub proof fn lemma_parse_of_ser(es: Seq<(Seq<char>, Seq<char>)>)
    ensures
        spec_parse(spec_ser(es)) == Some(es),
{
    let s = spec_ser(es);
    assert(s.subrange(0, 11) =~= spec_header());
    if es.len() == 0 {
        assert(spec_ser_entries(es).len() == 0);
        assert(s.skip(11) =~= seq!['}', '}']);
        assert(s.skip(11)[0] == '}');
        assert(Seq::<(Seq<char>, Seq<char>)>::empty() =~= es);
    } else {
        assert(spec_quote(es[0].0)[0] == '"');
        assert(spec_ser_entries(es)[0] == '"');
        assert(s.skip(11) =~= spec_ser_entries(es) + seq!['}', '}']);
        assert(s.skip(11)[0] == '"');
        lemma_parse_pairs_of_ser(es, Seq::empty());
        assert(Seq::<(Seq<char>, Seq<char>)>::empty() + es =~= es);
    }
}

proof fn lemma_map_of_pairs_view(entries: Seq<(String, String)>)
    ensures
        map_of_pairs(view_entries(entries)) == map_of(entries),
    decreases entries.len(),
{
    if entries.len() > 0 {
        assert(view_entries(entries).drop_last() =~= view_entries(entries.drop_last()));
        lemma_map_of_pairs_view(entries.drop_last());
    }
}

/// Saving and loading the cache reproduces every entry, failure markers
/// included: the serialized text parses back to the same entry list, and
/// loading it yields the same mapping.
pub proof fn lemma_cache_round_trip(c: GeocodeCache)
    requires
        c.wf(),
    ensures
        spec_parse(spec_ser(view_entries(c.entries@))) == Some(view_entries(c.entries@)),
        spec_load(spec_ser(view_entries(c.entries@))) == c@,
{
    lemma_parse_of_ser(view_entries(c.entries@));
    lemma_map_of_pairs_view(c.entries@);
}

} // verus!
