//! Per-path attribute overlays: patterns mapped to `name=value`
//! attributes, with the derived per-path view the builder queries
//! (external paths, checksum lists, raw values).

use vstd::prelude::*;
use vstd::string::StrSliceExecFns;

use gix_attributes::parse::Kind;

verus! {

/// Errors of attribute loading.
#[derive(Debug)]
pub enum AttrError {
    /// The attribute file's syntax could not be parsed.
    Parse,
    /// A `crcs` attribute held a value that is not a comma-separated
    /// list of hexadecimal 32-bit numbers.
    InvalidCrc,
}

/// Handle for attribute parsing; parsing is stateless, so it carries
/// nothing.
pub struct Parser {}

/// One pattern line of an attributes file: the path pattern and its
/// attribute assignments in order, each a name with the string value of
/// its state (empty when the state carries no value).
#[derive(Debug, Default)]
pub struct Item {
    pub pattern: String,
    pub attributes: Vec<(String, String)>,
}

/// One parsed line of an attributes file.
#[derive(Debug)]
pub enum AttrLine {
    /// A pattern with its assignments.
    Pattern(Item),
    /// A macro definition, which attribute loading ignores.
    MacroDef(String),
}

/// The views of a sequence of string pairs.
pub open spec fn pair_views(s: Seq<(String, String)>) -> Seq<(Seq<char>, Seq<char>)> {
    Seq::new(s.len(), |i: int| (s[i].0@, s[i].1@))
}

/// The name-to-value map a list of assignments denotes: a name assigned
/// twice keeps its later value.
pub open spec fn spec_assign_map(a: Seq<(Seq<char>, Seq<char>)>) -> Map<Seq<char>, Seq<char>>
    decreases a.len(),
{
    if a.len() == 0 {
        Map::empty()
    } else {
        spec_assign_map(a.drop_last()).insert(a.last().0, a.last().1)
    }
}

/// The path-to-attributes map a list of entries denotes; a path entered
/// twice keeps its later attributes.
pub open spec fn items_map(s: Seq<(String, Vec<(String, String)>)>) -> Map<
    Seq<char>,
    Map<Seq<char>, Seq<char>>,
>
    decreases s.len(),
{
    if s.len() == 0 {
        Map::empty()
    } else {
        items_map(s.drop_last()).insert(s.last().0@, spec_assign_map(pair_views(s.last().1@)))
    }
}

/// The path-to-checksums map a list of entries denotes.
pub open spec fn crcs_map(s: Seq<(String, Vec<u32>)>) -> Map<Seq<char>, Seq<u32>>
    decreases s.len(),
{
    if s.len() == 0 {
        Map::empty()
    } else {
        crcs_map(s.drop_last()).insert(s.last().0@, s.last().1@)
    }
}

/// An attribute map marks a path external when its `type` attribute has
/// the value `external`.
pub open spec fn spec_external(m: Map<Seq<char>, Seq<char>>) -> bool {
    m.dom().contains("type"@) && m["type"@] == "external"@
}

/// Component-wise path prefix: `t` is a prefix of `p` when its
/// characters open `p` and end on a component boundary.
pub open spec fn spec_path_starts_with(p: Seq<char>, t: Seq<char>) -> bool {
    t.len() <= p.len() && p.take(t.len() as int) == t && (t.len() == p.len() || p[t.len() as int]
        == '/' || (t.len() > 0 && t.last() == '/'))
}

proof fn lemma_items_map_dom(s: Seq<(String, Vec<(String, String)>)>)
    ensures
        forall|p: Seq<char>|
            items_map(s).dom().contains(p) <==> exists|i: int| 0 <= i < s.len() && s[i].0@ == p,
    decreases s.len(),
{
    if s.len() > 0 {
        let sd = s.drop_last();
        lemma_items_map_dom(sd);
        assert forall|p: Seq<char>| items_map(s).dom().contains(p) implies exists|i: int|
            0 <= i < s.len() && s[i].0@ == p by {
            if p == s.last().0@ {
                assert(s[s.len() - 1].0@ == p);
            } else {
                assert(items_map(sd).dom().contains(p));
                let i = choose|i: int| 0 <= i < sd.len() && sd[i].0@ == p;
                assert(s[i] == sd[i]);
                assert(s[i].0@ == p);
            }
        }
        assert forall|p: Seq<char>|
            (exists|i: int| 0 <= i < s.len() && s[i].0@ == p) implies items_map(
            s,
        ).dom().contains(p) by {
            let i = choose|i: int| 0 <= i < s.len() && s[i].0@ == p;
            if i < s.len() - 1 {
                assert(sd[i] == s[i]);
                assert(sd[i].0@ == p);
                assert(items_map(sd).dom().contains(p));
            }
        }
    }
}

proof fn lemma_items_map_get_last(s: Seq<(String, Vec<(String, String)>)>, i: int)
    requires
        0 <= i < s.len(),
        forall|j: int| i < j < s.len() ==> s[j].0@ != s[i].0@,
    ensures
        items_map(s).dom().contains(s[i].0@),
        items_map(s)[s[i].0@] == spec_assign_map(pair_views(s[i].1@)),
    decreases s.len(),
{
    if i == s.len() - 1 {
    } else {
        assert(s.drop_last()[i] == s[i]);
        lemma_items_map_get_last(s.drop_last(), i);
        assert(s.last().0@ != s[i].0@);
    }
}

proof fn lemma_crcs_map_dom(s: Seq<(String, Vec<u32>)>)
    ensures
        forall|p: Seq<char>|
            crcs_map(s).dom().contains(p) <==> exists|i: int| 0 <= i < s.len() && s[i].0@ == p,
    decreases s.len(),
{
    if s.len() > 0 {
        let sd = s.drop_last();
        lemma_crcs_map_dom(sd);
        assert forall|p: Seq<char>| crcs_map(s).dom().contains(p) implies exists|i: int|
            0 <= i < s.len() && s[i].0@ == p by {
            if p == s.last().0@ {
                assert(s[s.len() - 1].0@ == p);
            } else {
                assert(crcs_map(sd).dom().contains(p));
                let i = choose|i: int| 0 <= i < sd.len() && sd[i].0@ == p;
                assert(s[i] == sd[i]);
                assert(s[i].0@ == p);
            }
        }
        assert forall|p: Seq<char>|
            (exists|i: int| 0 <= i < s.len() && s[i].0@ == p) implies crcs_map(
            s,
        ).dom().contains(p) by {
            let i = choose|i: int| 0 <= i < s.len() && s[i].0@ == p;
            if i < s.len() - 1 {
                assert(sd[i] == s[i]);
                assert(sd[i].0@ == p);
                assert(crcs_map(sd).dom().contains(p));
            }
        }
    }
}

proof fn lemma_crcs_map_get_last(s: Seq<(String, Vec<u32>)>, i: int)
    requires
        0 <= i < s.len(),
        forall|j: int| i < j < s.len() ==> s[j].0@ != s[i].0@,
    ensures
        crcs_map(s).dom().contains(s[i].0@),
        crcs_map(s)[s[i].0@] == s[i].1@,
    decreases s.len(),
{
    if i == s.len() - 1 {
    } else {
        assert(s.drop_last()[i] == s[i]);
        lemma_crcs_map_get_last(s.drop_last(), i);
        assert(s.last().0@ != s[i].0@);
    }
}

proof fn lemma_assign_map_dom(a: Seq<(Seq<char>, Seq<char>)>)
    ensures
        forall|k: Seq<char>|
            spec_assign_map(a).dom().contains(k) <==> exists|i: int|
                0 <= i < a.len() && a[i].0 == k,
    decreases a.len(),
{
    if a.len() > 0 {
        let ad = a.drop_last();
        lemma_assign_map_dom(ad);
        assert forall|k: Seq<char>| spec_assign_map(a).dom().contains(k) implies exists|i: int|
            0 <= i < a.len() && a[i].0 == k by {
            if k == a.last().0 {
                assert(a[a.len() - 1].0 == k);
            } else {
                assert(spec_assign_map(ad).dom().contains(k));
                let i = choose|i: int| 0 <= i < ad.len() && ad[i].0 == k;
                assert(a[i] == ad[i]);
                assert(a[i].0 == k);
            }
        }
        assert forall|k: Seq<char>|
            (exists|i: int| 0 <= i < a.len() && a[i].0 == k) implies spec_assign_map(
            a,
        ).dom().contains(k) by {
            let i = choose|i: int| 0 <= i < a.len() && a[i].0 == k;
            if i < a.len() - 1 {
                assert(ad[i] == a[i]);
                assert(ad[i].0 == k);
                assert(spec_assign_map(ad).dom().contains(k));
            }
        }
    }
}

proof fn lemma_assign_map_get_last(a: Seq<(Seq<char>, Seq<char>)>, i: int)
    requires
        0 <= i < a.len(),
        forall|j: int| i < j < a.len() ==> a[j].0 != a[i].0,
    ensures
        spec_assign_map(a).dom().contains(a[i].0),
        spec_assign_map(a)[a[i].0] == a[i].1,
    decreases a.len(),
{
    if i == a.len() - 1 {
    } else {
        assert(a.drop_last()[i] == a[i]);
        lemma_assign_map_get_last(a.drop_last(), i);
        assert(a.last().0 != a[i].0);
    }
}

/// Finds the position of the last assignment of `key`, if any.
fn find_last_pair(pairs: &Vec<(String, String)>, key: &str) -> (r: Option<usize>)
    ensures
        match r {
            Some(i) => i < pairs@.len() && pairs@[i as int].0@ == key@ && forall|j: int|
                i < j < pairs@.len() ==> pairs@[j].0@ != key@,
            None => forall|j: int| 0 <= j < pairs@.len() ==> pairs@[j].0@ != key@,
        },
{
    let n = pairs.len();
    let mut best: Option<usize> = None;
    let mut i: usize = 0;
    while i < n
        invariant
            i <= n,
            n == pairs@.len(),
            match best {
                Some(b) => b < i && pairs@[b as int].0@ == key@ && forall|j: int|
                    b < j < i ==> pairs@[j].0@ != key@,
                None => forall|j: int| 0 <= j < i ==> pairs@[j].0@ != key@,
            },
        decreases n - i,
    {
        if crate::strutil::str_eq(pairs[i].0.as_str(), key) {
            best = Some(i);
        }
        i += 1;
    }
    best
}

/// The parsed attribute overlay: for each path, its attributes and its
/// checksum list.
#[derive(Debug)]
pub struct Attributes {
    items: Vec<(String, Vec<(String, String)>)>,
    crcs: Vec<(String, Vec<u32>)>,
}

impl Attributes {
    /// The path-to-attributes map.
    pub closed spec fn items_view(self) -> Map<Seq<char>, Map<Seq<char>, Seq<char>>> {
        items_map(self.items@)
    }

    /// The path-to-checksums map.
    pub closed spec fn crcs_view(self) -> Map<Seq<char>, Seq<u32>> {
        crcs_map(self.crcs@)
    }

    /// Finds the position of the last entry of `path`, if any.
    fn find_last_item(&self, path: &str) -> (r: Option<usize>)
        ensures
            match r {
                Some(i) => i < self.items@.len() && self.items@[i as int].0@ == path@ && forall|
                    j: int,
                | i < j < self.items@.len() ==> self.items@[j].0@ != path@,
                None => forall|j: int| 0 <= j < self.items@.len() ==> self.items@[j].0@ != path@,
            },
    {
        let n = self.items.len();
        let mut best: Option<usize> = None;
        let mut i: usize = 0;
        while i < n
            invariant
                i <= n,
                n == self.items@.len(),
                match best {
                    Some(b) => b < i && self.items@[b as int].0@ == path@ && forall|j: int|
                        b < j < i ==> self.items@[j].0@ != path@,
                    None => forall|j: int| 0 <= j < i ==> self.items@[j].0@ != path@,
                },
            decreases n - i,
        {
            if crate::strutil::str_eq(self.items[i].0.as_str(), path) {
                best = Some(i);
            }
            i += 1;
        }
        best
    }

    /// The attributes of `path`, as the list of assignments that denotes
    /// its attribute map.
    pub fn get_values(&self, path: &str) -> (r: Option<&Vec<(String, String)>>)
        ensures
            match r {
                Some(v) => self.items_view().dom().contains(path@) && self.items_view()[path@]
                    == spec_assign_map(pair_views(v@)),
                None => !self.items_view().dom().contains(path@),
            },
    {
        proof {
            lemma_items_map_dom(self.items@);
        }
        match self.find_last_item(path) {
            Some(i) => {
                proof {
                    lemma_items_map_get_last(self.items@, i as int);
                }
                Some(&self.items[i].1)
            },
            None => None,
        }
    }

    /// The value of attribute `key` of `path`, if both exist.
    pub fn get_value(&self, path: &str, key: &str) -> (r: Option<String>)
        ensures
            (r is Some) == (self.items_view().dom().contains(path@)
                && self.items_view()[path@].dom().contains(key@)),
            r matches Some(v) ==> v@ == self.items_view()[path@][key@],
    {
        proof {
            lemma_items_map_dom(self.items@);
        }
        match self.find_last_item(path) {
            Some(i) => {
                proof {
                    lemma_items_map_get_last(self.items@, i as int);
                    lemma_assign_map_dom(pair_views(self.items@[i as int].1@));
                }
                match find_last_pair(&self.items[i].1, key) {
                    Some(j) => {
                        proof {
                            let pv = pair_views(self.items@[i as int].1@);
                            assert(pv[j as int].0 == key@);
                            assert(forall|l: int| j < l < pv.len() ==> pv[l].0 != pv[j as int].0);
                            lemma_assign_map_get_last(pv, j as int);
                        }
                        Some(self.items[i].1[j].1.clone())
                    },
                    None => {
                        proof {
                            let pv = pair_views(self.items@[i as int].1@);
                            assert(forall|l: int| 0 <= l < pv.len() ==> pv[l].0 != key@);
                        }
                        None
                    },
                }
            },
            None => None,
        }
    }

    /// Reports whether an assignment list marks its path external:
    /// its `type` attribute has the value `external`.
    pub fn check_external(&self, attributes: &Vec<(String, String)>) -> (r: bool)
        ensures
            r == spec_external(spec_assign_map(pair_views(attributes@))),
    {
        proof {
            lemma_assign_map_dom(pair_views(attributes@));
        }
        match find_last_pair(attributes, "type") {
            Some(j) => {
                proof {
                    let pv = pair_views(attributes@);
                    assert(pv[j as int].0 == "type"@);
                    assert(forall|l: int| j < l < pv.len() ==> pv[l].0 != pv[j as int].0);
                    lemma_assign_map_get_last(pv, j as int);
                }
                crate::strutil::str_eq(attributes[j].1.as_str(), "external")
            },
            None => {
                proof {
                    let pv = pair_views(attributes@);
                    assert(forall|l: int| 0 <= l < pv.len() ==> pv[l].0 != "type"@);
                }
                false
            },
        }
    }

    /// Reports whether `path` is marked external.
    pub fn is_external(&self, path: &str) -> (r: bool)
        ensures
            r == (self.items_view().dom().contains(path@) && spec_external(
                self.items_view()[path@],
            )),
    {
        match self.get_values(path) {
            Some(attributes) => self.check_external(attributes),
            None => false,
        }
    }

    /// Reports whether some path marked external starts with `target`,
    /// component-wise.
    pub fn is_prefix_external(&self, target: &str) -> (r: bool)
        ensures
            r == exists|p: Seq<char>|
                #[trigger] self.items_view().dom().contains(p) && spec_path_starts_with(p, target@)
                    && spec_external(self.items_view()[p]),
    {
        proof {
            lemma_items_map_dom(self.items@);
        }
        let n = self.items.len();
        let mut i: usize = 0;
        while i < n
            invariant
                i <= n,
                n == self.items@.len(),
                forall|p: Seq<char>|
                    (#[trigger] self.items_view().dom().contains(p) && spec_path_starts_with(
                        p,
                        target@,
                    ) && spec_external(self.items_view()[p])) ==> exists|l: int|
                        i <= l < n && self.items@[l].0@ == p,
            decreases n - i,
        {
            let last_idx = self.find_last_item(self.items[i].0.as_str());
            let is_last = match last_idx {
                Some(b) => b == i,
                None => false,
            };
            let pref = path_starts_with(self.items[i].0.as_str(), target);
            let ext = self.check_external(&self.items[i].1);
            if is_last && pref && ext {
                proof {
                    lemma_items_map_get_last(self.items@, i as int);
                    let p = self.items@[i as int].0@;
                    assert(self.items_view().dom().contains(p) && spec_path_starts_with(p, target@)
                        && spec_external(self.items_view()[p]));
                }
                return true;
            }
            proof {
                assert forall|p: Seq<char>|
                    (#[trigger] self.items_view().dom().contains(p) && spec_path_starts_with(
                        p,
                        target@,
                    ) && spec_external(self.items_view()[p])) implies exists|l: int|
                    i + 1 <= l < n && self.items@[l].0@ == p by {
                    let l = choose|l: int| i <= l < n && self.items@[l].0@ == p;
                    if l == i {
                        if is_last {
                            lemma_items_map_get_last(self.items@, i as int);
                            assert(false);
                        } else {
                            match last_idx {
                                Some(b) => {
                                    assert(self.items@[b as int].0@ == p);
                                },
                                None => {
                                    assert(false);
                                },
                            }
                        }
                    }
                }
            }
            i += 1;
        }
        proof {
            assert forall|p: Seq<char>|
                !(#[trigger] self.items_view().dom().contains(p) && spec_path_starts_with(
                    p,
                    target@,
                ) && spec_external(self.items_view()[p])) by {
                if self.items_view().dom().contains(p) && spec_path_starts_with(p, target@)
                    && spec_external(self.items_view()[p]) {
                    assert(exists|l: int| n <= l < n && self.items@[l].0@ == p);
                    assert(false);
                }
            }
        }
        false
    }

    /// The checksum list of `path`, if one was recorded.
    pub fn get_crcs(&self, path: &str) -> (r: Option<&Vec<u32>>)
        ensures
            match r {
                Some(v) => self.crcs_view().dom().contains(path@) && v@ == self.crcs_view()[path@],
                None => !self.crcs_view().dom().contains(path@),
            },
    {
        proof {
            lemma_crcs_map_dom(self.crcs@);
        }
        let n = self.crcs.len();
        let mut best: Option<usize> = None;
        let mut i: usize = 0;
        while i < n
            invariant
                i <= n,
                n == self.crcs@.len(),
                match best {
                    Some(b) => b < i && self.crcs@[b as int].0@ == path@ && forall|j: int|
                        b < j < i ==> self.crcs@[j].0@ != path@,
                    None => forall|j: int| 0 <= j < i ==> self.crcs@[j].0@ != path@,
                },
            decreases n - i,
        {
            if crate::strutil::str_eq(self.crcs[i].0.as_str(), path) {
                best = Some(i);
            }
            i += 1;
        }
        match best {
            Some(b) => {
                proof {
                    lemma_crcs_map_get_last(self.crcs@, b as int);
                }
                Some(&self.crcs[b].1)
            },
            None => None,
        }
    }
}

impl Default for Attributes {
    /// The empty overlay: no paths, no checksums.
    fn default() -> (r: Attributes)
        ensures
            r.items_view() == Map::<Seq<char>, Map<Seq<char>, Seq<char>>>::empty(),
            r.crcs_view() == Map::<Seq<char>, Seq<u32>>::empty(),
    {
        Attributes { items: Vec::new(), crcs: Vec::new() }
    }
}

/// A blank character, as attribute values may be padded with.
pub open spec fn spec_is_blank(c: char) -> bool {
    c == ' ' || c == '\t'
}

/// `s` with its leading blanks removed.
pub open spec fn spec_trim_start(s: Seq<char>) -> Seq<char>
    decreases s.len(),
{
    if s.len() > 0 && spec_is_blank(s.first()) {
        spec_trim_start(s.drop_first())
    } else {
        s
    }
}

/// `s` with its trailing blanks removed.
pub open spec fn spec_trim_end(s: Seq<char>) -> Seq<char>
    decreases s.len(),
{
    if s.len() > 0 && spec_is_blank(s.last()) {
        spec_trim_end(s.drop_last())
    } else {
        s
    }
}

/// `s` with leading and trailing blanks removed.
pub open spec fn spec_trim(s: Seq<char>) -> Seq<char> {
    spec_trim_end(spec_trim_start(s))
}

/// The value of a hexadecimal digit, upper or lower case.
pub open spec fn spec_hex_val(c: char) -> Option<u32> {
    match c {
        '0' => Some(0u32),
        '1' => Some(1u32),
        '2' => Some(2u32),
        '3' => Some(3u32),
        '4' => Some(4u32),
        '5' => Some(5u32),
        '6' => Some(6u32),
        '7' => Some(7u32),
        '8' => Some(8u32),
        '9' => Some(9u32),
        'a' => Some(10u32),
        'b' => Some(11u32),
        'c' => Some(12u32),
        'd' => Some(13u32),
        'e' => Some(14u32),
        'f' => Some(15u32),
        'A' => Some(10u32),
        'B' => Some(11u32),
        'C' => Some(12u32),
        'D' => Some(13u32),
        'E' => Some(14u32),
        'F' => Some(15u32),
        _ => None,
    }
}

/// Folding the digits of `s` onto `acc`, base 16; fails on a non-digit
/// or when the value leaves 32 bits.
pub open spec fn spec_hex_fold(s: Seq<char>, acc: u32) -> Option<u32>
    decreases s.len(),
{
    if s.len() == 0 {
        Some(acc)
    } else {
        match spec_hex_val(s.first()) {
            None => None,
            Some(d) => if acc as nat * 16 + d as nat > u32::MAX as nat {
                None
            } else {
                spec_hex_fold(s.drop_first(), (acc * 16 + d) as u32)
            },
        }
    }
}

/// The value of a non-empty string of hexadecimal digits that fits in
/// 32 bits.
pub open spec fn spec_parse_hex_u32(s: Seq<char>) -> Option<u32> {
    if s.len() == 0 {
        None
    } else {
        spec_hex_fold(s, 0u32)
    }
}

/// `s` with one leading `0x` removed, if present.
pub open spec fn spec_strip_hex_prefix(s: Seq<char>) -> Seq<char> {
    if s.len() >= 2 && s[0] == '0' && s[1] == 'x' {
        s.skip(2)
    } else {
        s
    }
}

/// The checksum one list element denotes: trimmed, `0x` stripped, read
/// as hexadecimal.
pub open spec fn spec_parse_crc(s: Seq<char>) -> Option<u32> {
    spec_parse_hex_u32(spec_strip_hex_prefix(spec_trim(s)))
}

/// The position of the first comma of `s`, or its length if it has
/// none.
pub open spec fn spec_first_comma(s: Seq<char>) -> int
    decreases s.len(),
{
    if s.len() == 0 {
        0
    } else if s.first() == ',' {
        0
    } else {
        1 + spec_first_comma(s.drop_first())
    }
}

/// The first comma's position is a position of `s` holding a comma,
/// with none before it; a string without commas has it at its length.
pub proof fn lemma_first_comma(s: Seq<char>)
    ensures
        0 <= spec_first_comma(s) <= s.len(),
        spec_first_comma(s) < s.len() ==> crate::strutil::spec_first_at(
            s,
            ',',
            spec_first_comma(s),
        ),
        spec_first_comma(s) == s.len() ==> forall|j: int| 0 <= j < s.len() ==> s[j] != ',',
    decreases s.len(),
{
    if s.len() > 0 && s.first() != ',' {
        lemma_first_comma(s.drop_first());
        let sd = s.drop_first();
        let i = spec_first_comma(s);
        if i < s.len() {
            assert(s[i] == sd[i - 1]);
            assert forall|j: int| 0 <= j < i implies s[j] != ',' by {
                if j > 0 {
                    assert(sd[j - 1] != ',');
                }
            }
        } else {
            assert forall|j: int| 0 <= j < s.len() implies s[j] != ',' by {
                if j > 0 {
                    assert(sd[j - 1] != ',');
                }
            }
        }
    }
}

/// `s` split on commas; a string without commas is one piece.
pub open spec fn spec_split_commas(s: Seq<char>) -> Seq<Seq<char>>
    decreases s.len(),
    via spec_split_commas_decreases
{
    if spec_first_comma(s) == s.len() {
        seq![s]
    } else {
        let i = spec_first_comma(s);
        seq![s.take(i)] + spec_split_commas(s.skip(i + 1))
    }
}

#[via_fn]
proof fn spec_split_commas_decreases(s: Seq<char>) {
    lemma_first_comma(s);
}

/// The checksums a list of pieces denotes; one bad piece fails the
/// whole list.
pub open spec fn spec_crc_pieces(ps: Seq<Seq<char>>) -> Option<Seq<u32>>
    decreases ps.len(),
{
    if ps.len() == 0 {
        Some(Seq::empty())
    } else {
        match spec_parse_crc(ps.first()) {
            None => None,
            Some(v) => match spec_crc_pieces(ps.drop_first()) {
                None => None,
                Some(rest) => Some(seq![v] + rest),
            },
        }
    }
}

/// The checksums a `crcs` attribute value denotes.
pub open spec fn spec_parse_crc_list(v: Seq<char>) -> Option<Seq<u32>> {
    spec_crc_pieces(spec_split_commas(v))
}

/// The checksum list a line's assignments leave behind: each `crcs`
/// assignment replaces the list, and an invalid one fails the line.
pub open spec fn spec_crcs_fold(a: Seq<(Seq<char>, Seq<char>)>, acc: Seq<u32>) -> Option<Seq<u32>>
    decreases a.len(),
{
    if a.len() == 0 {
        Some(acc)
    } else if a.first().0 == "crcs"@ {
        match spec_parse_crc_list(a.first().1) {
            None => None,
            Some(v) => spec_crcs_fold(a.drop_first(), v),
        }
    } else {
        spec_crcs_fold(a.drop_first(), acc)
    }
}

/// The checksum list of one line, starting empty.
pub open spec fn spec_line_crcs(a: Seq<(Seq<char>, Seq<char>)>) -> Option<Seq<u32>> {
    spec_crcs_fold(a, Seq::empty())
}

/// A pattern made absolute: a leading `/` is added where missing.
pub open spec fn spec_normalize_path(p: Seq<char>) -> Seq<char> {
    if p.len() > 0 && p[0] == '/' {
        p
    } else {
        "/"@ + p
    }
}

/// The parent of a path: everything before its last `/`.  The root's
/// parent, and the parent of a path without `/`, is the empty string.
pub open spec fn spec_parent(p: Seq<char>) -> Seq<char>
    decreases p.len(),
{
    if p.len() == 0 {
        p
    } else if p.last() == '/' {
        p.drop_last()
    } else {
        spec_parent(p.drop_last())
    }
}

/// A path's parent is shorter than the path.
pub proof fn lemma_parent_len(p: Seq<char>)
    ensures
        p.len() > 0 ==> spec_parent(p).len() < p.len(),
        p.len() == 0 ==> spec_parent(p) == p,
    decreases p.len(),
{
    if p.len() > 0 && p.last() != '/' {
        lemma_parent_len(p.drop_last());
    }
}

/// Every missing ancestor of `p`, up to but not including the root,
/// entered as external.
pub open spec fn spec_add_parents(
    items: Map<Seq<char>, Map<Seq<char>, Seq<char>>>,
    p: Seq<char>,
) -> Map<Seq<char>, Map<Seq<char>, Seq<char>>>
    decreases p.len(),
    via spec_add_parents_decreases
{
    let par = spec_parent(p);
    if par.len() == 0 {
        items
    } else {
        let items2 = if items.dom().contains(par) {
            items
        } else {
            items.insert(par, Map::empty().insert("type"@, "external"@))
        };
        spec_add_parents(items2, par)
    }
}

#[via_fn]
proof fn spec_add_parents_decreases(
    items: Map<Seq<char>, Map<Seq<char>, Seq<char>>>,
    p: Seq<char>,
) {
    lemma_parent_len(p);
}

/// The effect of one pattern line: the normalized path is entered with
/// its attribute map and its checksum list, then its missing ancestors
/// are entered as external.  A bad `crcs` value fails the line.
pub open spec fn spec_apply_line(
    items: Map<Seq<char>, Map<Seq<char>, Seq<char>>>,
    crcs: Map<Seq<char>, Seq<u32>>,
    pat: Seq<char>,
    assigns: Seq<(Seq<char>, Seq<char>)>,
) -> Option<(Map<Seq<char>, Map<Seq<char>, Seq<char>>>, Map<Seq<char>, Seq<u32>>)> {
    let path = spec_normalize_path(pat);
    match spec_line_crcs(assigns) {
        None => None,
        Some(cr) => {
            let items2 = items.insert(path, spec_assign_map(assigns));
            let crcs2 = crcs.insert(path, cr);
            Some((spec_add_parents(items2, path), crcs2))
        },
    }
}

/// The effect of a parsed file, line by line; macro lines are ignored.
pub open spec fn spec_apply_lines(
    items: Map<Seq<char>, Map<Seq<char>, Seq<char>>>,
    crcs: Map<Seq<char>, Seq<u32>>,
    lines: Seq<(bool, Seq<char>, Seq<(Seq<char>, Seq<char>)>)>,
) -> Option<(Map<Seq<char>, Map<Seq<char>, Seq<char>>>, Map<Seq<char>, Seq<u32>>)>
    decreases lines.len(),
{
    if lines.len() == 0 {
        Some((items, crcs))
    } else if !lines.first().0 {
        spec_apply_lines(items, crcs, lines.drop_first())
    } else {
        match spec_apply_line(items, crcs, lines.first().1, lines.first().2) {
            None => None,
            Some(st) => spec_apply_lines(st.0, st.1, lines.drop_first()),
        }
    }
}

/// The plain view of parsed lines: a flag telling pattern lines from
/// macro definitions, the pattern or macro name, and the assignments.
pub open spec fn line_views(s: Seq<AttrLine>) -> Seq<
    (bool, Seq<char>, Seq<(Seq<char>, Seq<char>)>),
> {
    Seq::new(
        s.len(),
        |i: int|
            match s[i] {
                AttrLine::Pattern(item) => (true, item.pattern@, pair_views(item.attributes@)),
                AttrLine::MacroDef(n) => (false, n@, Seq::<(Seq<char>, Seq<char>)>::empty()),
            },
    )
}

/// What parsing an attribute file's bytes yields: its lines, or nothing
/// when the syntax is invalid.  The result depends on the bytes alone.
pub uninterp spec fn attr_lines_of(content: Seq<u8>) -> Option<
    Seq<(bool, Seq<char>, Seq<(Seq<char>, Seq<char>)>)>,
>;

/// Reports whether `p` starts with `t`, component-wise.
pub fn path_starts_with(p: &str, t: &str) -> (r: bool)
    ensures
        r == spec_path_starts_with(p@, t@),
{
    let np = p.unicode_len();
    let nt = t.unicode_len();
    if nt > np {
        return false;
    }
    let mut i: usize = 0;
    while i < nt
        invariant
            i <= nt,
            nt <= np,
            np == p@.len(),
            nt == t@.len(),
            forall|j: int| 0 <= j < i ==> p@[j] == t@[j],
        decreases nt - i,
    {
        if p.get_char(i) != t.get_char(i) {
            proof {
                assert(p@.take(nt as int)[i as int] != t@[i as int]);
            }
            return false;
        }
        i += 1;
    }
    proof {
        assert(p@.take(nt as int) =~= t@);
    }
    if np == nt {
        true
    } else if p.get_char(nt) == '/' {
        true
    } else if nt > 0 && t.get_char(nt - 1) == '/' {
        true
    } else {
        false
    }
}

/// Reports whether `c` is a blank.
fn is_blank_char(c: char) -> (r: bool)
    ensures
        r == spec_is_blank(c),
{
    c == ' ' || c == '\t'
}

/// Removes leading and trailing blanks.
fn trim_blanks(s: &str) -> (r: String)
    ensures
        r@ == spec_trim(s@),
{
    let n = s.unicode_len();
    let mut a: usize = 0;
    proof {
        assert(s@.skip(0) =~= s@);
    }
    while a < n && is_blank_char(s.get_char(a))
        invariant
            a <= n,
            n == s@.len(),
            spec_trim_start(s@) == spec_trim_start(s@.skip(a as int)),
        decreases n - a,
    {
        proof {
            assert(s@.skip(a as int).first() == s@[a as int]);
            assert(s@.skip(a as int).drop_first() =~= s@.skip(a + 1));
        }
        a += 1;
    }
    proof {
        if a < n {
            assert(s@.skip(a as int).first() == s@[a as int]);
        }
        assert(spec_trim_start(s@) == s@.skip(a as int));
    }
    let ghost t = s@.skip(a as int);
    let mut b: usize = n;
    proof {
        assert(s@.subrange(a as int, n as int) =~= t);
    }
    while b > a && is_blank_char(s.get_char(b - 1))
        invariant
            a <= b <= n,
            n == s@.len(),
            t == s@.skip(a as int),
            spec_trim_end(t) == spec_trim_end(s@.subrange(a as int, b as int)),
        decreases b,
    {
        proof {
            assert(s@.subrange(a as int, b as int).last() == s@[b - 1]);
            assert(s@.subrange(a as int, b as int).drop_last() =~= s@.subrange(
                a as int,
                b - 1,
            ));
        }
        b -= 1;
    }
    proof {
        let seg = s@.subrange(a as int, b as int);
        if b > a {
            assert(seg.last() == s@[b - 1]);
        }
        assert(spec_trim_end(seg) == seg);
    }
    let r = s.substring_char(a, b).to_owned();
    proof {
        assert(r@ == spec_trim(s@));
    }
    r
}

/// The value of a hexadecimal digit.
fn hex_val(c: char) -> (r: Option<u32>)
    ensures
        r == spec_hex_val(c),
{
    match c {
        '0' => Some(0u32),
        '1' => Some(1u32),
        '2' => Some(2u32),
        '3' => Some(3u32),
        '4' => Some(4u32),
        '5' => Some(5u32),
        '6' => Some(6u32),
        '7' => Some(7u32),
        '8' => Some(8u32),
        '9' => Some(9u32),
        'a' => Some(10u32),
        'b' => Some(11u32),
        'c' => Some(12u32),
        'd' => Some(13u32),
        'e' => Some(14u32),
        'f' => Some(15u32),
        'A' => Some(10u32),
        'B' => Some(11u32),
        'C' => Some(12u32),
        'D' => Some(13u32),
        'E' => Some(14u32),
        'F' => Some(15u32),
        _ => None,
    }
}

/// Reads a non-empty hexadecimal string as a 32-bit number.
fn parse_hex_u32(s: &str) -> (r: Option<u32>)
    ensures
        r == spec_parse_hex_u32(s@),
{
    let n = s.unicode_len();
    if n == 0 {
        return None;
    }
    let mut acc: u32 = 0;
    let mut i: usize = 0;
    proof {
        assert(s@.skip(0) =~= s@);
    }
    while i < n
        invariant
            i <= n,
            n == s@.len(),
            spec_hex_fold(s@, 0u32) == spec_hex_fold(s@.skip(i as int), acc),
        decreases n - i,
    {
        let c = s.get_char(i);
        proof {
            assert(s@.skip(i as int).first() == s@[i as int]);
        }
        match hex_val(c) {
            None => {
                return None;
            },
            Some(d) => {
                let next: u64 = acc as u64 * 16 + d as u64;
                if next > u32::MAX as u64 {
                    return None;
                }
                proof {
                    assert(s@.skip(i as int).drop_first() =~= s@.skip(i + 1));
                }
                acc = next as u32;
            },
        }
        i += 1;
    }
    proof {
        assert(s@.skip(n as int) =~= Seq::<char>::empty());
    }
    Some(acc)
}

/// Removes one leading `0x`, if present.
fn strip_hex_prefix(s: &str) -> (r: String)
    ensures
        r@ == spec_strip_hex_prefix(s@),
{
    let n = s.unicode_len();
    if n >= 2 && s.get_char(0) == '0' && s.get_char(1) == 'x' {
        let r = s.substring_char(2, n).to_owned();
        proof {
            assert(r@ =~= s@.skip(2));
        }
        r
    } else {
        s.to_owned()
    }
}

/// Reads one checksum list element.
fn parse_crc(s: &str) -> (r: Option<u32>)
    ensures
        r == spec_parse_crc(s@),
{
    let trimmed = trim_blanks(s);
    let stripped = strip_hex_prefix(trimmed.as_str());
    parse_hex_u32(stripped.as_str())
}

/// The views of a sequence of strings.
pub open spec fn str_views(s: Seq<String>) -> Seq<Seq<char>> {
    Seq::new(s.len(), |i: int| s[i]@)
}

/// Splits a string on commas.
fn split_commas(s: &str) -> (r: Vec<String>)
    ensures
        str_views(r@) == spec_split_commas(s@),
{
    let mut out: Vec<String> = Vec::new();
    let mut rest: String = s.to_owned();
    loop
        invariant
            spec_split_commas(s@) == str_views(out@) + spec_split_commas(rest@),
        decreases rest@.len(),
    {
        let ghost prev = out@;
        match crate::strutil::find_char(rest.as_str(), ',') {
            None => {
                proof {
                    lemma_first_comma(rest@);
                    assert(spec_first_comma(rest@) == rest@.len());
                }
                out.push(rest);
                proof {
                    assert(str_views(out@) =~= str_views(prev) + seq![out@.last()@]);
                    assert(spec_split_commas(s@) =~= str_views(out@));
                }
                return out;
            },
            Some(i) => {
                proof {
                    assert(crate::strutil::spec_first_at(rest@, ',', i as int));
                    lemma_first_comma(rest@);
                    if spec_first_comma(rest@) == rest@.len() {
                        assert(false);
                    }
                    crate::strutil::lemma_first_at_unique(
                        rest@,
                        ',',
                        spec_first_comma(rest@),
                        i as int,
                    );
                }
                let piece = rest.as_str().substring_char(0, i).to_owned();
                let n = rest.unicode_len();
                let next = rest.as_str().substring_char(i + 1, n).to_owned();
                proof {
                    assert(piece@ =~= rest@.take(i as int));
                    assert(next@ =~= rest@.skip(i + 1));
                }
                out.push(piece);
                proof {
                    assert(str_views(out@) =~= str_views(prev) + seq![out@.last()@]);
                    assert(str_views(prev) + spec_split_commas(rest@) =~= str_views(out@)
                        + spec_split_commas(next@));
                }
                rest = next;
            },
        }
    }
}

/// Reads a `crcs` attribute value as its checksum list.
fn parse_crc_list(v: &str) -> (r: Option<Vec<u32>>)
    ensures
        match r {
            Some(out) => spec_parse_crc_list(v@) matches Some(s) && out@ == s,
            None => spec_parse_crc_list(v@) is None,
        },
{
    let pieces = split_commas(v);
    let n = pieces.len();
    let mut out: Vec<u32> = Vec::new();
    let mut i: usize = 0;
    proof {
        assert(str_views(pieces@).skip(0) =~= str_views(pieces@));
        match spec_crc_pieces(str_views(pieces@)) {
            Some(rest) => {
                assert(out@ + rest =~= rest);
            },
            None => {},
        }
    }
    while i < n
        invariant
            i <= n,
            n == pieces@.len(),
            str_views(pieces@) == spec_split_commas(v@),
            spec_crc_pieces(str_views(pieces@)) == match spec_crc_pieces(
                str_views(pieces@).skip(i as int),
            ) {
                None => None::<Seq<u32>>,
                Some(rest) => Some(out@ + rest),
            },
        decreases n - i,
    {
        let ghost pv = str_views(pieces@);
        proof {
            assert(pv.skip(i as int).first() == pv[i as int]);
            assert(pv[i as int] == pieces@[i as int]@);
        }
        match parse_crc(pieces[i].as_str()) {
            None => {
                return None;
            },
            Some(c) => {
                let ghost prev = out@;
                out.push(c);
                proof {
                    assert(pv.skip(i as int).drop_first() =~= pv.skip(i + 1));
                    assert forall|rest: Seq<u32>| prev + (seq![c] + rest) =~= out@ + rest by {}
                }
                i += 1;
            },
        }
    }
    proof {
        let pv = str_views(pieces@);
        assert(pv.skip(n as int) =~= Seq::<Seq<char>>::empty());
        assert(out@ + Seq::<u32>::empty() =~= out@);
    }
    Some(out)
}

/// The checksum list a line's assignments leave behind.
fn crcs_of_assigns(assigns: &Vec<(String, String)>) -> (r: Option<Vec<u32>>)
    ensures
        match r {
            Some(out) => spec_line_crcs(pair_views(assigns@)) matches Some(s) && out@ == s,
            None => spec_line_crcs(pair_views(assigns@)) is None,
        },
{
    let n = assigns.len();
    let mut out: Vec<u32> = Vec::new();
    let mut i: usize = 0;
    proof {
        assert(pair_views(assigns@).skip(0) =~= pair_views(assigns@));
    }
    while i < n
        invariant
            i <= n,
            n == assigns@.len(),
            spec_line_crcs(pair_views(assigns@)) == spec_crcs_fold(
                pair_views(assigns@).skip(i as int),
                out@,
            ),
        decreases n - i,
    {
        let ghost pv = pair_views(assigns@);
        proof {
            assert(pv.skip(i as int).first() == pv[i as int]);
            assert(pv.skip(i as int).drop_first() =~= pv.skip(i + 1));
        }
        if crate::strutil::str_eq(assigns[i].0.as_str(), "crcs") {
            match parse_crc_list(assigns[i].1.as_str()) {
                None => {
                    return None;
                },
                Some(v) => {
                    out = v;
                },
            }
        }
        i += 1;
    }
    proof {
        assert(pair_views(assigns@).skip(n as int) =~= Seq::<(Seq<char>, Seq<char>)>::empty());
    }
    Some(out)
}

/// Makes a pattern absolute.
fn normalize_path(p: &str) -> (r: String)
    ensures
        r@ == spec_normalize_path(p@),
{
    if !p.is_empty() && p.get_char(0) == '/' {
        p.to_owned()
    } else {
        String::from_str("/").concat(p)
    }
}

/// The parent of `path`: everything before its last `/`.
fn parent_of(path: &str) -> (r: String)
    ensures
        r@ == spec_parent(path@),
{
    let n = path.unicode_len();
    let mut last: Option<usize> = None;
    let mut i: usize = 0;
    while i < n
        invariant
            i <= n,
            n == path@.len(),
            match last {
                Some(b) => b < i && path@[b as int] == '/' && forall|j: int|
                    b < j < i ==> path@[j] != '/',
                None => forall|j: int| 0 <= j < i ==> path@[j] != '/',
            },
        decreases n - i,
    {
        if path.get_char(i) == '/' {
            last = Some(i);
        }
        i += 1;
    }
    match last {
        Some(b) => {
            proof {
                lemma_parent_at_slash(path@, b as int);
            }
            let r = path.substring_char(0, b).to_owned();
            proof {
                assert(r@ =~= path@.take(b as int));
            }
            r
        },
        None => {
            proof {
                lemma_parent_no_slash(path@);
            }
            String::new()
        },
    }
}

proof fn lemma_parent_at_slash(p: Seq<char>, b: int)
    requires
        0 <= b < p.len(),
        p[b] == '/',
        forall|j: int| b < j < p.len() ==> p[j] != '/',
    ensures
        spec_parent(p) == p.take(b),
    decreases p.len(),
{
    if b == p.len() - 1 {
        assert(p.drop_last() =~= p.take(b));
    } else {
        assert(p.drop_last()[b] == '/');
        lemma_parent_at_slash(p.drop_last(), b);
        assert(p.drop_last().take(b) =~= p.take(b));
    }
}

proof fn lemma_parent_no_slash(p: Seq<char>)
    requires
        forall|j: int| 0 <= j < p.len() ==> p[j] != '/',
    ensures
        spec_parent(p).len() == 0,
    decreases p.len(),
{
    if p.len() > 0 {
        lemma_parent_no_slash(p.drop_last());
    }
}

/// Reports whether some entry holds `path`.
fn items_contain(items: &Vec<(String, Vec<(String, String)>)>, path: &str) -> (r: bool)
    ensures
        r == items_map(items@).dom().contains(path@),
{
    proof {
        lemma_items_map_dom(items@);
    }
    let n = items.len();
    let mut i: usize = 0;
    while i < n
        invariant
            i <= n,
            n == items@.len(),
            forall|j: int| 0 <= j < i ==> items@[j].0@ != path@,
        decreases n - i,
    {
        if crate::strutil::str_eq(items[i].0.as_str(), path) {
            proof {
                lemma_items_map_dom(items@);
                assert(items@[i as int].0@ == path@);
                assert(exists|j: int| 0 <= j < items@.len() && items@[j].0@ == path@);
                assert(items_map(items@).dom().contains(path@));
            }
            return true;
        }
        i += 1;
    }
    false
}

/// Enters every missing ancestor of `path`, up to but not including the
/// root, as external.
fn add_parents(items: &mut Vec<(String, Vec<(String, String)>)>, path: &str)
    ensures
        items_map(final(items)@) == spec_add_parents(items_map(old(items)@), path@),
{
    let mut cur: String = path.to_owned();
    loop
        invariant
            spec_add_parents(items_map(old(items)@), path@) == spec_add_parents(
                items_map(items@),
                cur@,
            ),
        decreases cur@.len(),
    {
        proof {
            lemma_parent_len(cur@);
        }
        let par = parent_of(cur.as_str());
        if par.as_str().is_empty() {
            return ;
        }
        if !items_contain(items, par.as_str()) {
            let mut tv: Vec<(String, String)> = Vec::new();
            tv.push((String::from_str("type"), String::from_str("external")));
            let ghost prev = items@;
            items.push((par.clone(), tv));
            proof {
                assert(items@.drop_last() =~= prev);
                let pvs = pair_views(items@.last().1@);
                assert(pvs.len() == 1);
                assert(pvs[0] == ("type"@, "external"@));
                assert(pvs.last() == ("type"@, "external"@));
                assert(pvs.drop_last() =~= Seq::<(Seq<char>, Seq<char>)>::empty());
                assert(spec_assign_map(pvs.drop_last()) =~= Map::<Seq<char>, Seq<char>>::empty());
                assert(spec_assign_map(pvs) =~= Map::<Seq<char>, Seq<char>>::empty().insert(
                    "type"@,
                    "external"@,
                ));
            }
        }
        cur = par;
    }
}

/// Relies on gix_attributes::parse: the pattern and macro lines of an
/// attributes file's bytes, each pattern with its assignments in order
/// and each assignment's state as its string value (empty when the
/// state carries none).  The result is a function of the bytes alone.
#[verifier::external_body]
fn parse_attr_lines(content: &[u8]) -> (r: Result<Vec<AttrLine>, AttrError>)
    ensures
        match r {
            Ok(lines) => attr_lines_of(content@) matches Some(v) && line_views(lines@) == v,
            Err(e) => attr_lines_of(content@) is None && e is Parse,
        },
{
    let mut out = Vec::new();
    for item in gix_attributes::parse(content) {
        let (kind, lines, _) = item.map_err(|_| AttrError::Parse)?;
        let mut attrs = Vec::new();
        for line in lines {
            let l = line.map_err(|_| AttrError::Parse)?;
            let v = l.state.as_bstr().map(|v| v.to_string()).unwrap_or_default();
            attrs.push((l.name.as_str().to_string(), v));
        }
        out.push(match kind {
            Kind::Pattern(p) => AttrLine::Pattern(Item { pattern: p.text.to_string(), attributes: attrs }),
            Kind::Macro(n) => AttrLine::MacroDef(n.as_str().to_string()),
        });
    }
    Ok(out)
}

/// Copies a list of string pairs.
fn copy_pairs(v: &Vec<(String, String)>) -> (r: Vec<(String, String)>)
    ensures
        pair_views(r@) == pair_views(v@),
{
    let n = v.len();
    let mut r: Vec<(String, String)> = Vec::new();
    let mut i: usize = 0;
    while i < n
        invariant
            i <= n,
            n == v@.len(),
            r@.len() == i,
            forall|j: int| 0 <= j < i ==> r@[j].0@ == v@[j].0@ && r@[j].1@ == v@[j].1@,
        decreases n - i,
    {
        r.push((v[i].0.clone(), v[i].1.clone()));
        i += 1;
    }
    proof {
        assert(pair_views(r@) =~= pair_views(v@));
    }
    r
}

impl Attributes {
    /// Builds the overlay from parsed lines: each pattern line enters
    /// its normalized path with its attributes and checksum list, then
    /// its missing ancestors as external; macro lines are ignored; a
    /// bad `crcs` value fails the load.
    pub fn from_parsed(lines: Vec<AttrLine>) -> (r: Result<Attributes, AttrError>)
        ensures
            match r {
                Ok(a) => spec_apply_lines(
                    Map::empty(),
                    Map::empty(),
                    line_views(lines@),
                ) matches Some(st) && a.items_view() == st.0 && a.crcs_view() == st.1,
                Err(e) => e is InvalidCrc && spec_apply_lines(
                    Map::empty(),
                    Map::empty(),
                    line_views(lines@),
                ) is None,
            },
    {
        let n = lines.len();
        let mut items: Vec<(String, Vec<(String, String)>)> = Vec::new();
        let mut crcs: Vec<(String, Vec<u32>)> = Vec::new();
        let mut i: usize = 0;
        proof {
            assert(line_views(lines@).skip(0) =~= line_views(lines@));
        }
        while i < n
            invariant
                i <= n,
                n == lines@.len(),
                spec_apply_lines(Map::empty(), Map::empty(), line_views(lines@))
                    == spec_apply_lines(
                    items_map(items@),
                    crcs_map(crcs@),
                    line_views(lines@).skip(i as int),
                ),
            decreases n - i,
        {
            let ghost lv = line_views(lines@);
            proof {
                assert(lv.skip(i as int).first() == lv[i as int]);
                assert(lv.skip(i as int).drop_first() =~= lv.skip(i + 1));
            }
            match &lines[i] {
                AttrLine::MacroDef(_) => {},
                AttrLine::Pattern(item) => {
                    let path = normalize_path(item.pattern.as_str());
                    match crcs_of_assigns(&item.attributes) {
                        None => {
                            return Err(AttrError::InvalidCrc);
                        },
                        Some(cr) => {
                            let ghost prev_items = items@;
                            let ghost prev_crcs = crcs@;
                            items.push((path.clone(), copy_pairs(&item.attributes)));
                            crcs.push((path.clone(), cr));
                            proof {
                                assert(items@.drop_last() =~= prev_items);
                                assert(crcs@.drop_last() =~= prev_crcs);
                            }
                            add_parents(&mut items, path.as_str());
                        },
                    }
                },
            }
            i += 1;
        }
        proof {
            assert(line_views(lines@).skip(n as int) =~= Seq::<
                (bool, Seq<char>, Seq<(Seq<char>, Seq<char>)>),
            >::empty());
        }
        Ok(Attributes { items, crcs })
    }

    /// Parses an attributes file's bytes into the overlay.
    pub fn from(content: &[u8]) -> (r: Result<Attributes, AttrError>)
        ensures
            match r {
                Ok(a) => attr_lines_of(content@) matches Some(v) && (spec_apply_lines(
                    Map::empty(),
                    Map::empty(),
                    v,
                ) matches Some(st) && a.items_view() == st.0 && a.crcs_view() == st.1),
                Err(e) => (e is Parse && attr_lines_of(content@) is None) || (e is InvalidCrc && (
                attr_lines_of(content@) matches Some(v) && spec_apply_lines(
                    Map::empty(),
                    Map::empty(),
                    v,
                ) is None)),
            },
    {
        let lines = parse_attr_lines(content)?;
        Attributes::from_parsed(lines)
    }
}

} // verus!
