//! The catalog of installed interfaces.
use vstd::prelude::*;
use crate::error::Error;
use crate::interface::{
    lemma_first_match_from, resolve, Interface, InterfaceError, InterfaceView, InterfaceType, Mapping,
    valid_interface,
};
use crate::path::{endpoint_matches, MappingPath};
use crate::text::chars_of;

verus! {

/// Lexicographic order on character sequences, by code point.
pub open spec fn lex_lt(a: Seq<char>, b: Seq<char>) -> bool
    decreases a.len(),
{
    if a.len() == 0 {
        b.len() > 0
    } else if b.len() == 0 {
        false
    } else if (a[0] as u32) < (b[0] as u32) {
        true
    } else if (a[0] as u32) > (b[0] as u32) {
        false
    } else {
        lex_lt(a.drop_first(), b.drop_first())
    }
}

pub proof fn lemma_lex_irreflexive(a: Seq<char>)
    ensures
        !lex_lt(a, a),
    decreases a.len(),
{
    if a.len() > 0 {
        lemma_lex_irreflexive(a.drop_first());
    }
}

pub proof fn lemma_lex_total(a: Seq<char>, b: Seq<char>)
    ensures
        a == b || lex_lt(a, b) || lex_lt(b, a),
    decreases a.len(),
{
    if a.len() > 0 && b.len() > 0 && (a[0] as u32) == (b[0] as u32) {
        vstd::utf8::char_u32_cast(a[0], a[0] as u32);
        vstd::utf8::char_u32_cast(b[0], b[0] as u32);
        assert(a[0] == b[0]);
        lemma_lex_total(a.drop_first(), b.drop_first());
        if a.drop_first() == b.drop_first() {
            assert(a =~= seq![a[0]] + a.drop_first());
            assert(b =~= seq![b[0]] + b.drop_first());
        }
    }
}

pub proof fn lemma_lex_asymmetric(a: Seq<char>, b: Seq<char>)
    ensures
        !(lex_lt(a, b) && lex_lt(b, a)),
    decreases a.len(),
{
    if a.len() > 0 && b.len() > 0 && (a[0] as u32) == (b[0] as u32) {
        lemma_lex_asymmetric(a.drop_first(), b.drop_first());
    }
}

pub proof fn lemma_lex_transitive(a: Seq<char>, b: Seq<char>, c: Seq<char>)
    requires
        lex_lt(a, b),
        lex_lt(b, c),
    ensures
        lex_lt(a, c),
    decreases a.len(),
{
    if a.len() > 0 && b.len() > 0 && c.len() > 0 && (a[0] as u32) == (b[0] as u32) && (b[0] as u32) == (c[0] as u32) {
        lemma_lex_transitive(a.drop_first(), b.drop_first(), c.drop_first());
    }
}

/// Compares two strings in lexicographic order: `-1`, `0` or `1`.
pub fn compare_str(a: &str, b: &str) -> (r: i8)
    ensures
        r == 0 <==> a@ == b@,
        r < 0 <==> lex_lt(a@, b@),
        r > 0 <==> lex_lt(b@, a@),
{
    proof {
        lemma_lex_irreflexive(a@);
        lemma_lex_asymmetric(a@, b@);
        lemma_lex_total(a@, b@);
    }
    let x = chars_of(a);
    let y = chars_of(b);
    assert(a@.skip(0) =~= a@);
    assert(b@.skip(0) =~= b@);
    let mut i: usize = 0;
    while i < x.len() && i < y.len()
        invariant
            x@ == a@,
            y@ == b@,
            i <= x@.len(),
            i <= y@.len(),
            x@.subrange(0, i as int) == y@.subrange(0, i as int),
            lex_lt(a@, b@) == lex_lt(a@.skip(i as int), b@.skip(i as int)),
            lex_lt(b@, a@) == lex_lt(b@.skip(i as int), a@.skip(i as int)),
        decreases x@.len() - i,
    {
        assert(a@.skip(i as int).drop_first() =~= a@.skip(i as int + 1));
        assert(b@.skip(i as int).drop_first() =~= b@.skip(i as int + 1));
        if (x[i] as u32) < (y[i] as u32) {
            return -1;
        }
        if (x[i] as u32) > (y[i] as u32) {
            return 1;
        }
        proof {
            vstd::utf8::char_u32_cast(x@[i as int], x@[i as int] as u32);
            vstd::utf8::char_u32_cast(y@[i as int], y@[i as int] as u32);
        }
        assert(x@[i as int] == y@[i as int]);
        assert(x@.subrange(0, i as int + 1) =~= x@.subrange(0, i as int).push(x@[i as int]));
        assert(y@.subrange(0, i as int + 1) =~= y@.subrange(0, i as int).push(y@[i as int]));
        i = i + 1;
    }
    if x.len() == y.len() {
        assert(x@ =~= x@.subrange(0, i as int));
        assert(y@ =~= y@.subrange(0, i as int));
        0
    } else if x.len() < y.len() {
        -1
    } else {
        1
    }
}

/// The names are in strictly increasing order.
pub open spec fn sorted_names(s: Seq<InterfaceView>) -> bool {
    forall|i: int, j: int| 0 <= i < j < s.len() ==> lex_lt(#[trigger] s[i].name, #[trigger] s[j].name)
}

/// Index of the interface named `name`.
pub open spec fn index_of(s: Seq<InterfaceView>, name: Seq<char>) -> Option<int> {
    if exists|i: int| 0 <= i < s.len() && #[trigger] s[i].name == name {
        Some(choose|i: int| 0 <= i < s.len() && #[trigger] s[i].name == name)
    } else {
        None
    }
}

/// The interface named `name`.
pub open spec fn find(s: Seq<InterfaceView>, name: Seq<char>) -> Option<InterfaceView> {
    match index_of(s, name) {
        Some(i) => Some(s[i]),
        None => None,
    }
}

/// Whether `new` may replace `old`: the major version only grows, and on the same major the
/// minor version does not go back.
pub open spec fn version_upgrade(old: InterfaceView, new: InterfaceView) -> bool {
    new.version_major > old.version_major || (new.version_major == old.version_major
        && new.version_minor >= old.version_minor)
}

pub open spec fn digit_char(d: int) -> char {
    if d == 0 { '0' } else if d == 1 { '1' } else if d == 2 { '2' } else if d == 3 { '3' } else if d
        == 4 { '4' } else if d == 5 { '5' } else if d == 6 { '6' } else if d == 7 { '7' } else if d
        == 8 { '8' } else { '9' }
}

/// Decimal text of a natural number.
pub open spec fn decimal(n: nat) -> Seq<char>
    decreases n,
{
    if n < 10 {
        seq![digit_char(n as int)]
    } else {
        decimal(n / 10).push(digit_char((n % 10) as int))
    }
}

/// `name:major:minor`.
pub open spec fn introspection_entry(i: InterfaceView) -> Seq<char> {
    i.name + seq![':'] + decimal(i.version_major as nat) + seq![':'] + decimal(i.version_minor as nat)
}

/// The entries of the interfaces joined by `;`.
pub open spec fn introspection_of(s: Seq<InterfaceView>) -> Seq<char>
    decreases s.len(),
{
    if s.len() == 0 {
        Seq::empty()
    } else if s.len() == 1 {
        introspection_entry(s[0])
    } else {
        introspection_of(s.drop_last()) + seq![';'] + introspection_entry(s.last())
    }
}

fn digit_str(d: u32) -> (r: &'static str)
    requires
        d < 10,
    ensures
        r@ == seq![digit_char(d as int)],
{
    if d == 0 {
        proof { reveal_strlit("0"); }
        "0"
    } else if d == 1 {
        proof { reveal_strlit("1"); }
        "1"
    } else if d == 2 {
        proof { reveal_strlit("2"); }
        "2"
    } else if d == 3 {
        proof { reveal_strlit("3"); }
        "3"
    } else if d == 4 {
        proof { reveal_strlit("4"); }
        "4"
    } else if d == 5 {
        proof { reveal_strlit("5"); }
        "5"
    } else if d == 6 {
        proof { reveal_strlit("6"); }
        "6"
    } else if d == 7 {
        proof { reveal_strlit("7"); }
        "7"
    } else if d == 8 {
        proof { reveal_strlit("8"); }
        "8"
    } else {
        proof { reveal_strlit("9"); }
        "9"
    }
}

/// Appends the decimal text of `n`.
pub fn push_decimal(s: &mut String, n: u32)
    ensures
        final(s)@ == old(s)@ + decimal(n as nat),
    decreases n,
{
    if n >= 10 {
        push_decimal(s, n / 10);
    }
    s.append(digit_str(n % 10));
    proof {
        if n >= 10 {
            assert(final(s)@ =~= old(s)@ + decimal(n as nat));
        } else {
            assert(final(s)@ =~= old(s)@ + decimal(n as nat));
        }
    }
}

/// The catalog as a map from name to interface.
pub open spec fn by_name(cat: Seq<InterfaceView>) -> Map<Seq<char>, InterfaceView> {
    Map::new(|n: Seq<char>| find(cat, n) is Some, |n: Seq<char>| find(cat, n)->Some_0)
}

/// What adding `i` does to a catalog seen as a map: `None` when `i` would go back in version.
pub open spec fn add_to(m: Map<Seq<char>, InterfaceView>, i: InterfaceView) -> Option<Map<Seq<char>, InterfaceView>> {
    if m.contains_key(i.name) && !version_upgrade(m[i.name], i) {
        None
    } else {
        Some(m.insert(i.name, i))
    }
}

/// Adding interfaces one after the other, stopping at the first refused one.
pub open spec fn add_all(m: Map<Seq<char>, InterfaceView>, s: Seq<InterfaceView>) -> Option<Map<Seq<char>, InterfaceView>>
    decreases s.len(),
{
    if s.len() == 0 {
        Some(m)
    } else {
        match add_all(m, s.drop_last()) {
            Some(m1) => add_to(m1, s.last()),
            None => None,
        }
    }
}

/// The installed interfaces, kept in order of name.
#[derive(Debug)]
pub struct Interfaces {
    interfaces: Vec<Interface>,
}

impl View for Interfaces {
    type V = Seq<InterfaceView>;

    closed spec fn view(&self) -> Seq<InterfaceView> {
        self.interfaces@.map_values(|i: Interface| i@)
    }
}

impl Interfaces {
    /// Names strictly increase, so each name is installed once; every interface is valid.
    pub open spec fn wf(&self) -> bool {
        &&& sorted_names(self@)
        &&& forall|i: int| 0 <= i < self@.len() ==> valid_interface(#[trigger] self@[i])
    }

    pub fn new() -> (r: Interfaces)
        ensures
            r@ == Seq::<InterfaceView>::empty(),
            r.wf(),
    {
        let r = Interfaces { interfaces: Vec::new() };
        assert(r@ =~= Seq::<InterfaceView>::empty());
        r
    }

    pub fn len(&self) -> (r: usize)
        ensures
            r == self@.len(),
    {
        self.interfaces.len()
    }

    /// The interface at position `i` in order of name.
    pub fn at(&self, i: usize) -> (r: &Interface)
        requires
            i < self@.len(),
        ensures
            r@ == self@[i as int],
    {
        &self.interfaces[i]
    }

    /// Position of the interface named `name`.
    pub fn position(&self, name: &str) -> (r: Option<usize>)
        requires
            self.wf(),
        ensures
            r matches Some(k) ==> k < self@.len() && self@[k as int].name == name@ && index_of(self@, name@) == Some(k as int),
            r is None <==> index_of(self@, name@) is None,
    {
        let mut i: usize = 0;
        while i < self.interfaces.len()
            invariant
                self.wf(),
                i <= self@.len(),
                forall|k: int| 0 <= k < i ==> (#[trigger] self@[k]).name != name@,
            decreases self@.len() - i,
        {
            if compare_str(self.interfaces[i].interface_name(), name) == 0 {
                proof {
                    assert(self@[i as int].name == name@);
                    let c = choose|k: int| 0 <= k < self@.len() && #[trigger] self@[k].name == name@;
                    if c != i as int {
                        if c < i {
                            assert(lex_lt(self@[c].name, self@[i as int].name));
                        } else {
                            assert(lex_lt(self@[i as int].name, self@[c].name));
                        }
                        lemma_lex_irreflexive(name@);
                    }
                }
                return Some(i);
            }
            i = i + 1;
        }
        None
    }

    /// The interface named `name`.
    pub fn get(&self, name: &str) -> (r: Option<&Interface>)
        requires
            self.wf(),
        ensures
            r matches Some(i) ==> find(self@, name@) == Some(i@),
            r is None ==> find(self@, name@) is None,
    {
        match self.position(name) {
            Some(k) => Some(&self.interfaces[k]),
            None => None,
        }
    }

    /// The property interface named `name`.
    pub fn get_property(&self, name: &str) -> (r: Option<&Interface>)
        requires
            self.wf(),
        ensures
            r matches Some(i) ==> find(self@, name@) == Some(i@) && i@.interface_type == InterfaceType::Properties,
            r is None ==> !(find(self@, name@) matches Some(i) && i.interface_type == InterfaceType::Properties),
    {
        match self.get(name) {
            Some(i) => if i.is_property() { Some(i) } else { None },
            None => None,
        }
    }

    /// Installs an interface, or replaces the one of the same name with a newer version.
    pub fn add(&mut self, interface: Interface) -> (r: Result<(), InterfaceError>)
        requires
            old(self).wf(),
            valid_interface(interface@),
        ensures
            final(self).wf(),
            (find(old(self)@, interface@.name) matches Some(o) && !version_upgrade(o, interface@)) <==> r is Err,
            r matches Err(e) ==> (e matches InterfaceError::VersionChange { name } && name@ == interface@.name) && final(self)@ == old(self)@,
            r is Ok ==> find(final(self)@, interface@.name) == Some(interface@),
            r is Ok ==> forall|n: Seq<char>| n != interface@.name ==> find(#[trigger] final(self)@, n) == find(old(self)@, n),
            r is Ok ==> forall|i: int| 0 <= i < final(self)@.len() ==> (#[trigger] final(self)@[i]).name == interface@.name
                || find(old(self)@, final(self)@[i].name) == Some(final(self)@[i]),
            add_to(by_name(old(self)@), interface@) == if r is Ok { Some(by_name(final(self)@)) } else { None },
    {
        let mut i: usize = 0;
        let n = self.interfaces.len();
        let ghost s = self@;
        let mut done = false;
        while !done && i < n
            invariant
                n == self@.len(),
                s == self@,
                self.wf(),
                i <= n,
                forall|k: int| 0 <= k < i ==> lex_lt(#[trigger] s[k].name, interface@.name),
                done ==> i < n && !lex_lt(s[i as int].name, interface@.name),
            decreases (n - i) + (if done { 0int } else { 1int }),
        {
            let c = compare_str(self.interfaces[i].interface_name(), interface.interface_name());
            if c >= 0 {
                done = true;
            } else {
                i = i + 1;
            }
        }
        if done && compare_str(self.interfaces[i].interface_name(), interface.interface_name()) == 0 {
            let o = &self.interfaces[i];
            let up = interface.version_major() > o.version_major() || (interface.version_major()
                == o.version_major() && interface.version_minor() >= o.version_minor());
            proof {
                self.lemma_index_of(i as int);
            }
            if !up {
                proof {
                    assert(by_name(s).contains_key(interface@.name));
                }
                return Err(InterfaceError::VersionChange { name: String::from_str(interface.interface_name()) });
            }
            self.interfaces.set(i, interface);
            proof {
                assert(self@ =~= s.update(i as int, interface@));
                self.lemma_index_of(i as int);
                self.lemma_find_others(s, i as int, true);
                Self::lemma_by_name_add(s, self@, interface@);
                lemma_index_of_seq(s, i as int);
            }
            Ok(())
        } else {
            proof {
                if i < n {
                    lemma_lex_total(s[i as int].name, interface@.name);
                }
                assert forall|k: int| 0 <= k < n implies (#[trigger] s[k]).name != interface@.name by {
                    if k < i {
                        lemma_lex_irreflexive(interface@.name);
                    } else {
                        if k > i {
                            lemma_lex_transitive(interface@.name, s[i as int].name, s[k].name);
                        }
                        lemma_lex_irreflexive(interface@.name);
                    }
                }
            }
            self.interfaces.insert(i, interface);
            proof {
                assert(self@ =~= s.insert(i as int, interface@));
                assert forall|a: int, b: int| 0 <= a < b < self@.len() implies lex_lt(#[trigger] self@[a].name, #[trigger] self@[b].name) by {
                    if b == i as int {
                        assert(lex_lt(s[a].name, interface@.name));
                    } else if a == i as int {
                        if i < n {
                            lemma_lex_total(s[i as int].name, interface@.name);
                            if b - 1 > i {
                                lemma_lex_transitive(interface@.name, s[i as int].name, s[b - 1].name);
                            }
                        }
                    } else if a < i && b > i {
                        assert(lex_lt(s[a].name, interface@.name));
                        if i < n {
                            lemma_lex_total(s[i as int].name, interface@.name);
                            if b - 1 > i {
                                lemma_lex_transitive(interface@.name, s[i as int].name, s[b - 1].name);
                            }
                        }
                        lemma_lex_transitive(s[a].name, interface@.name, s[b - 1].name);
                    }
                }
                self.lemma_index_of(i as int);
                self.lemma_find_others(s, i as int, false);
                Self::lemma_by_name_add(s, self@, interface@);
                assert(!by_name(s).contains_key(interface@.name));
            }
            Ok(())
        }
    }

    proof fn lemma_by_name_add(old_cat: Seq<InterfaceView>, new_cat: Seq<InterfaceView>, i: InterfaceView)
        requires
            find(new_cat, i.name) == Some(i),
            forall|n: Seq<char>| n != i.name ==> #[trigger] find(new_cat, n) == find(old_cat, n),
        ensures
            by_name(new_cat) == by_name(old_cat).insert(i.name, i),
    {
        assert forall|n: Seq<char>| by_name(new_cat).contains_key(n) <==> #[trigger] by_name(old_cat).insert(i.name, i).contains_key(n) by {
            if n != i.name {
                assert(find(new_cat, n) == find(old_cat, n));
            }
        }
        assert forall|n: Seq<char>| #[trigger] by_name(new_cat).contains_key(n) implies by_name(new_cat)[n] == by_name(old_cat).insert(i.name, i)[n] by {
            if n != i.name {
                assert(find(new_cat, n) == find(old_cat, n));
            }
        }
        assert(by_name(new_cat) =~= by_name(old_cat).insert(i.name, i));
    }

    proof fn lemma_index_of(&self, k: int)
        requires
            sorted_names(self@),
            0 <= k < self@.len(),
        ensures
            index_of(self@, self@[k].name) == Some(k),
    {
        let c = choose|j: int| 0 <= j < self@.len() && #[trigger] self@[j].name == self@[k].name;
        if c != k {
            lemma_lex_irreflexive(self@[k].name);
        }
    }

    proof fn lemma_find_others(&self, s: Seq<InterfaceView>, k: int, replaced: bool)
        requires
            sorted_names(self@),
            sorted_names(s),
            0 <= k < self@.len(),
            replaced ==> k < s.len() && self@ == s.update(k, self@[k]) && s[k].name == self@[k].name,
            !replaced ==> k <= s.len() && self@ == s.insert(k, self@[k]),
        ensures
            forall|n: Seq<char>| n != self@[k].name ==> find(#[trigger] self@, n) == find(s, n),
            forall|i: int| 0 <= i < self@.len() ==> (#[trigger] self@[i]).name == self@[k].name
                || find(s, self@[i].name) == Some(self@[i]),
    {
        assert forall|n: Seq<char>| n != self@[k].name implies find(#[trigger] self@, n) == find(s, n) by {
            if exists|j: int| 0 <= j < self@.len() && #[trigger] self@[j].name == n {
                let j = choose|j: int| 0 <= j < self@.len() && #[trigger] self@[j].name == n;
                self.lemma_index_of(j);
                assert(j != k);
                let j2 = if replaced || j < k { j } else { j - 1 };
                if replaced {
                    assert(self@[j] == s.update(k, self@[k])[j]);
                } else {
                    assert(self@[j] == s.insert(k, self@[k])[j]);
                }
                assert(s[j2] == self@[j]);
                lemma_index_of_seq(s, j2);
            } else {
                assert forall|j: int| 0 <= j < s.len() implies #[trigger] s[j].name != n by {
                    if replaced && j == k {
                        assert(s[j].name == self@[k].name);
                    } else {
                        let j2 = if replaced || j < k { j } else { j + 1 };
                        if replaced {
                            assert(self@[j2] == s.update(k, self@[k])[j2]);
                        } else {
                            assert(self@[j2] == s.insert(k, self@[k])[j2]);
                        }
                        assert(self@[j2] == s[j]);
                    }
                }
            }
        }
        assert forall|i: int| 0 <= i < self@.len() && (#[trigger] self@[i]).name != self@[k].name implies find(s, self@[i].name) == Some(self@[i]) by {
            assert(i != k);
            let j2 = if replaced || i < k { i } else { i - 1 };
            if replaced {
                assert(self@[i] == s.update(k, self@[k])[i]);
            } else {
                assert(self@[i] == s.insert(k, self@[k])[i]);
            }
            assert(s[j2] == self@[i]);
            lemma_index_of_seq(s, j2);
        }
    }

    /// Removes the interface named `name`, returning it.
    pub fn remove(&mut self, name: &str) -> (r: Option<Interface>)
        requires
            old(self).wf(),
        ensures
            final(self).wf(),
            r matches Some(i) ==> find(old(self)@, name@) == Some(i@),
            r is None ==> find(old(self)@, name@) is None && final(self)@ == old(self)@,
            find(final(self)@, name@) is None,
            forall|n: Seq<char>| n != name@ ==> find(#[trigger] final(self)@, n) == find(old(self)@, n),
    {
        let ghost s = self@;
        match self.position(name) {
            Some(k) => {
                let r = self.interfaces.remove(k);
                proof {
                    assert(self@ =~= s.remove(k as int));
                    assert forall|a: int, b: int| 0 <= a < b < self@.len() implies lex_lt(#[trigger] self@[a].name, #[trigger] self@[b].name) by {
                        let a2 = if a < k { a } else { a + 1 };
                        let b2 = if b < k { b } else { b + 1 };
                        assert(self@[a] == s[a2] && self@[b] == s[b2]);
                    }
                    assert forall|n: Seq<char>| find(#[trigger] self@, n) == if n == name@ { None } else { find(s, n) } by {
                        if exists|j: int| 0 <= j < self@.len() && #[trigger] self@[j].name == n {
                            let j = choose|j: int| 0 <= j < self@.len() && #[trigger] self@[j].name == n;
                            let j2 = if j < k { j } else { j + 1 };
                            assert(s[j2] == self@[j]);
                            lemma_index_of_seq(self@, j);
                            lemma_index_of_seq(s, j2);
                            if n == name@ {
                                lemma_index_of_seq(s, k as int);
                            }
                        } else {
                            if n != name@ {
                                assert forall|j: int| 0 <= j < s.len() implies #[trigger] s[j].name != n by {
                                    if j != k {
                                        let j3 = if j < k { j } else { j - 1 };
                                        assert(self@[j3] == s[j]);
                                    }
                                }
                            }
                        }
                    }
                }
                Some(r)
            },
            None => None,
        }
    }

    /// The mapping that `path` resolves to on the interface `name`.
    pub fn interface_mapping(&self, name: &str, path: &MappingPath) -> (r: Result<&Mapping, Error>)
        requires
            self.wf(),
            path.wf(),
        ensures
            find(self@, name@) is None ==> (r matches Err(Error::MissingInterface(n)) && n@ == name@),
            find(self@, name@) matches Some(i) ==> match resolve(i, path@) {
                Some(m) => r matches Ok(x) && x@ == m,
                None => r matches Err(Error::MissingMapping { interface: n, mapping: m }) && n@ == name@ && m@ == path@,
            },
    {
        let iface = match self.get(name) {
            Some(i) => i,
            None => {
                return Err(Error::MissingInterface(String::from_str(name)));
            },
        };
        match iface.as_mapping_ref(path) {
            Some(m) => Ok(m),
            None => Err(Error::MissingMapping { interface: String::from_str(name), mapping: String::from_str(path.as_str()) }),
        }
    }

    /// The introspection string: `name:major:minor` of every interface, in order of name,
    /// joined by `;`.
    pub fn get_introspection_string(&self) -> (r: String)
        requires
            self.wf(),
        ensures
            r@ == introspection_of(self@),
    {
        let mut out = String::new();
        let mut i: usize = 0;
        while i < self.interfaces.len()
            invariant
                self.wf(),
                i <= self@.len(),
                out@ == introspection_of(self@.subrange(0, i as int)),
            decreases self@.len() - i,
        {
            let iface = &self.interfaces[i];
            proof {
                lemma_valid_versions(self@[i as int]);
            }
            if i > 0 {
                proof { reveal_strlit(";"); }
                out.append(";");
            }
            let ghost before = out@;
            out.append(iface.interface_name());
            proof { reveal_strlit(":"); }
            out.append(":");
            push_decimal(&mut out, iface.version_major() as u32);
            out.append(":");
            push_decimal(&mut out, iface.version_minor() as u32);
            proof {
                let t = self@.subrange(0, i as int + 1);
                assert(t.drop_last() =~= self@.subrange(0, i as int));
                assert(t.last() == self@[i as int]);
                assert(out@ =~= before + introspection_entry(self@[i as int]));
                if i == 0 {
                    assert(before =~= Seq::<char>::empty());
                }
            }
            i = i + 1;
        }
        assert(self@.subrange(0, self@.len() as int) =~= self@);
        out
    }
}

/// A lookup is a function of the catalog, the name and the path, and the mapping it finds
/// matches the path.
pub proof fn lemma_interface_mapping_matches(cat: Seq<InterfaceView>, name: Seq<char>, path: Seq<char>)
    ensures
        find(cat, name) matches Some(i) ==> (resolve(i, path) matches Some(m) ==> endpoint_matches(m.endpoint, path)),
{
    if let Some(i) = find(cat, name) {
        lemma_first_match_from(i.mappings, path, 0);
    }
}

pub proof fn lemma_index_of_seq(s: Seq<InterfaceView>, k: int)
    requires
        sorted_names(s),
        0 <= k < s.len(),
    ensures
        index_of(s, s[k].name) == Some(k),
{
    let c = choose|j: int| 0 <= j < s.len() && #[trigger] s[j].name == s[k].name;
    if c != k {
        lemma_lex_irreflexive(s[k].name);
    }
}

proof fn lemma_valid_versions(i: InterfaceView)
    requires
        valid_interface(i),
    ensures
        i.version_major >= 0,
        i.version_minor >= 0,
{
}

} // verus!
