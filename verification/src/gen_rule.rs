//! How sample fields are generated: the kind and range of each field's values,
//! and a builder that assembles them by field name.
use vstd::prelude::*;
use crate::combined::GenScope;
use crate::sep::chars_equal;
use crate::text::chars_of;

verus! {

/// The values a generator draws from. A float range holds the bits of its
/// IEEE 754 doubles; an IPv4 range holds its addresses as numbers.
#[derive(Debug)]
pub enum GenScopeEnum {
    Ip(GenScope<u32>),
    Digit(GenScope<i64>),
    Float(GenScope<u64>),
    Chars(Vec<String>),
}

/// How one field is generated: its kind, the values it is drawn from, and an
/// optional render format such as `SN-{val}`.
#[derive(Debug)]
pub struct FieldGenConf {
    pub scope: Option<GenScopeEnum>,
    pub gen_type: String,
    pub gen_fmt: Option<String>,
}

impl Default for FieldGenConf {
    fn default() -> (r: FieldGenConf)
        ensures
            r.scope matches Some(GenScopeEnum::Digit(g)) && g.beg == 0 && g.end == 100,
            r.gen_type@ == "digit"@,
            r.gen_fmt matches Some(f) && f@ == "SN-{val}"@,
    {
        FieldGenConf {
            scope: Some(GenScopeEnum::Digit(GenScope { beg: 0, end: 100 })),
            gen_type: "digit".to_owned(),
            gen_fmt: Some("SN-{val}".to_owned()),
        }
    }
}

impl FieldGenConf {
    /// Integers drawn from `[beg, end)`.
    pub fn digit_of(beg: i64, end: i64) -> (r: FieldGenConf)
        ensures
            r.scope matches Some(GenScopeEnum::Digit(g)) && g.beg == beg && g.end == end,
            r.gen_type@ == "digit"@,
            r.gen_fmt is None,
    {
        FieldGenConf {
            scope: Some(GenScopeEnum::Digit(GenScope { beg, end })),
            gen_type: "digit".to_owned(),
            gen_fmt: None,
        }
    }

    /// Floats drawn from `[beg, end)`, given by the bits of their doubles.
    pub fn float_of(beg: u64, end: u64) -> (r: FieldGenConf)
        ensures
            r.scope matches Some(GenScopeEnum::Float(g)) && g.beg == beg && g.end == end,
            r.gen_type@ == "float"@,
            r.gen_fmt is None,
    {
        FieldGenConf {
            scope: Some(GenScopeEnum::Float(GenScope { beg, end })),
            gen_type: "float".to_owned(),
            gen_fmt: None,
        }
    }

    /// IPv4 addresses drawn from `[beg, end)`, given as numbers.
    pub fn ip_of(beg: u32, end: u32) -> (r: FieldGenConf)
        ensures
            r.scope matches Some(GenScopeEnum::Ip(g)) && g.beg == beg && g.end == end,
            r.gen_type@ == "ip"@,
            r.gen_fmt is None,
    {
        FieldGenConf {
            scope: Some(GenScopeEnum::Ip(GenScope { beg, end })),
            gen_type: "ip".to_owned(),
            gen_fmt: None,
        }
    }

    /// Texts picked from `values`.
    pub fn chars_from_list(values: Vec<String>) -> (r: FieldGenConf)
        ensures
            r.scope == Some(GenScopeEnum::Chars(values)),
            r.gen_type@ == "chars"@,
            r.gen_fmt is None,
    {
        FieldGenConf {
            scope: Some(GenScopeEnum::Chars(values)),
            gen_type: "chars".to_owned(),
            gen_fmt: None,
        }
    }

    /// Texts picked from `values`, in their order.
    pub fn chars_from(values: &[&str]) -> (r: FieldGenConf)
        ensures
            r.scope matches Some(GenScopeEnum::Chars(v)) && v@.len() == values@.len() && (forall|
                i: int,
            | 0 <= i < values@.len() ==> #[trigger] v@[i]@ == values@[i]@),
            r.gen_type@ == "chars"@,
            r.gen_fmt is None,
    {
        let mut v: Vec<String> = Vec::new();
        let mut i: usize = 0;
        while i < values.len()
            invariant
                i <= values@.len(),
                v@.len() == i,
                forall|j: int| 0 <= j < i ==> #[trigger] v@[j]@ == values@[j]@,
            decreases values.len() - i,
        {
            v.push(values[i].to_owned());
            i = i + 1;
        }
        Self::chars_from_list(v)
    }

    /// The same generator rendered with `fmt`.
    pub fn with_fmt(self, fmt: String) -> (r: FieldGenConf)
        ensures
            r.scope == self.scope,
            r.gen_type == self.gen_type,
            r.gen_fmt == Some(fmt),
    {
        FieldGenConf { scope: self.scope, gen_type: self.gen_type, gen_fmt: Some(fmt) }
    }

    /// Integers from 100 to 200.
    pub fn example_1() -> (r: FieldGenConf)
        ensures
            r.scope matches Some(GenScopeEnum::Digit(g)) && g.beg == 100 && g.end == 200,
            r.gen_type@ == "digit"@,
            r.gen_fmt is None,
    {
        Self::digit_of(100, 200)
    }

    /// Texts rendered as `SN-{val}` from integers below 100.
    pub fn example_2() -> (r: FieldGenConf)
        ensures
            r.scope matches Some(GenScopeEnum::Digit(g)) && g.beg == 0 && g.end == 100,
            r.gen_type@ == "chars"@,
            r.gen_fmt matches Some(f) && f@ == "SN-{val}"@,
    {
        FieldGenConf {
            scope: Some(GenScopeEnum::Digit(GenScope { beg: 0, end: 100 })),
            gen_type: "chars".to_owned(),
            gen_fmt: Some("SN-{val}".to_owned()),
        }
    }

    /// Addresses from 10.0.10.0 to 10.0.100.255.
    pub fn example_3() -> (r: FieldGenConf)
        ensures
            r.scope matches Some(GenScopeEnum::Ip(g)) && g.beg == 0x0A000A00 && g.end == 0x0A0064FF,
            r.gen_type@ == "ip"@,
            r.gen_fmt is None,
    {
        Self::ip_of(0x0A000A00, 0x0A0064FF)
    }
}

/// The entries of a builder: one per field name.
pub open spec fn unique_names(items: Seq<(String, FieldGenConf)>) -> bool {
    forall|i: int, j: int|
        0 <= i < items.len() && 0 <= j < items.len() && (#[trigger] items[i]).0@ == (
        #[trigger] items[j]).0@ ==> i == j
}

/// The generator set for the field `name` in `items`, if any.
pub open spec fn conf_for(items: Seq<(String, FieldGenConf)>, name: Seq<char>) -> Option<
    FieldGenConf,
> {
    if exists|i: int| 0 <= i < items.len() && (#[trigger] items[i]).0@ == name {
        let i = choose|i: int| 0 <= i < items.len() && (#[trigger] items[i]).0@ == name;
        Some(items[i].1)
    } else {
        None
    }
}

/// Assembles field generators by field name, one per name.
#[derive(Debug)]
pub struct FieldGenBuilder {
    items: Vec<(String, FieldGenConf)>,
}

impl FieldGenBuilder {
    /// The entries, in the order their names were first set.
    pub closed spec fn entries(&self) -> Seq<(String, FieldGenConf)> {
        self.items@
    }

    /// The generator set for `name`.
    pub open spec fn get(&self, name: Seq<char>) -> Option<FieldGenConf> {
        conf_for(self.entries(), name)
    }

    /// Each name has at most one entry.
    pub open spec fn wf(&self) -> bool {
        unique_names(self.entries())
    }

    /// A builder with no field.
    pub fn new() -> (r: FieldGenBuilder)
        ensures
            r.wf(),
            r.entries().len() == 0,
            forall|k: Seq<char>| r.get(k) is None,
    {
        FieldGenBuilder { items: Vec::new() }
    }

    /// The index of the entry named `name`.
    fn find(&self, name: &str) -> (r: Option<usize>)
        ensures
            match r {
                Some(i) => i < self.items@.len() && self.items@[i as int].0@ == name@,
                None => forall|i: int| 0 <= i < self.items@.len() ==> (#[trigger] self.items@[i]).0@ != name@,
            },
    {
        let key = chars_of(name);
        let mut i: usize = 0;
        while i < self.items.len()
            invariant
                i <= self.items@.len(),
                key@ == name@,
                forall|j: int| 0 <= j < i ==> (#[trigger] self.items@[j]).0@ != name@,
            decreases self.items.len() - i,
        {
            let k = chars_of(self.items[i].0.as_str());
            if chars_equal(k.as_slice(), key.as_slice()) {
                return Some(i);
            }
            i = i + 1;
        }
        None
    }

    /// Sets the generator of `name`, replacing the one it had.
    pub fn insert_conf(self, name: String, conf: FieldGenConf) -> (r: FieldGenBuilder)
        requires
            self.wf(),
        ensures
            r.wf(),
            r.get(name@) == Some(conf),
            forall|k: Seq<char>| k != name@ ==> r.get(k) == self.get(k),
    {
        let found = self.find(name.as_str());
        let mut items = self.items;
        let ghost old_items = items@;
        match found {
            Some(i) => {
                let ghost key = name@;
                items.set(i, (name, conf));
                proof {
                    assert(items@[i as int].0@ == key);
                    assert forall|a: int, b: int|
                        0 <= a < items@.len() && 0 <= b < items@.len() && (#[trigger] items@[a]).0@
                            == (#[trigger] items@[b]).0@ implies a == b by {
                        assert(items@[a].0@ == old_items[a].0@);
                        assert(items@[b].0@ == old_items[b].0@);
                    }
                    assert forall|k: Seq<char>| #![auto] k != key implies conf_for(items@, k)
                        == conf_for(old_items, k) by {
                        if exists|j: int| 0 <= j < items@.len() && (#[trigger] items@[j]).0@ == k {
                            let j = choose|j: int| 0 <= j < items@.len() && (#[trigger] items@[j]).0@ == k;
                            assert(old_items[j] == items@[j]);
                        }
                        if exists|j: int| 0 <= j < old_items.len() && (#[trigger] old_items[j]).0@ == k {
                            let j = choose|j: int| 0 <= j < old_items.len() && (#[trigger] old_items[j]).0@ == k;
                            assert(j != i);
                            assert(old_items[j] == items@[j]);
                        }
                    }
                }
            },
            None => {
                let ghost key = name@;
                items.push((name, conf));
                proof {
                    let n = old_items.len() as int;
                    assert(items@[n].0@ == key);
                    assert forall|a: int, b: int|
                        0 <= a < items@.len() && 0 <= b < items@.len() && (#[trigger] items@[a]).0@
                            == (#[trigger] items@[b]).0@ implies a == b by {
                        if a < n {
                            assert(items@[a] == old_items[a]);
                        }
                        if b < n {
                            assert(items@[b] == old_items[b]);
                        }
                    }
                    assert forall|k: Seq<char>| #![auto] k != key implies conf_for(items@, k)
                        == conf_for(old_items, k) by {
                        if exists|j: int| 0 <= j < items@.len() && (#[trigger] items@[j]).0@ == k {
                            let j = choose|j: int| 0 <= j < items@.len() && (#[trigger] items@[j]).0@ == k;
                            assert(j != n);
                            assert(old_items[j] == items@[j]);
                        }
                        if exists|j: int| 0 <= j < old_items.len() && (#[trigger] old_items[j]).0@ == k {
                            let j = choose|j: int| 0 <= j < old_items.len() && (#[trigger] old_items[j]).0@ == k;
                            assert(old_items[j] == items@[j]);
                        }
                    }
                }
            },
        }
        FieldGenBuilder { items }
    }

    /// Sets `name` to integers drawn from `[beg, end)`.
    pub fn digit(self, name: String, beg: i64, end: i64) -> (r: FieldGenBuilder)
        requires
            self.wf(),
        ensures
            r.wf(),
            r.get(name@) matches Some(c) && c.scope matches Some(GenScopeEnum::Digit(g)) && g.beg
                == beg && g.end == end && c.gen_type@ == "digit"@ && c.gen_fmt is None,
            forall|k: Seq<char>| k != name@ ==> r.get(k) == self.get(k),
    {
        self.insert_conf(name, FieldGenConf::digit_of(beg, end))
    }

    /// Sets `name` to floats drawn from `[beg, end)`, given by their bits.
    pub fn float(self, name: String, beg: u64, end: u64) -> (r: FieldGenBuilder)
        requires
            self.wf(),
        ensures
            r.wf(),
            r.get(name@) matches Some(c) && c.scope matches Some(GenScopeEnum::Float(g)) && g.beg
                == beg && g.end == end && c.gen_type@ == "float"@ && c.gen_fmt is None,
            forall|k: Seq<char>| k != name@ ==> r.get(k) == self.get(k),
    {
        self.insert_conf(name, FieldGenConf::float_of(beg, end))
    }

    /// Sets `name` to IPv4 addresses drawn from `[beg, end)`, given as numbers.
    pub fn ip(self, name: String, beg: u32, end: u32) -> (r: FieldGenBuilder)
        requires
            self.wf(),
        ensures
            r.wf(),
            r.get(name@) matches Some(c) && c.scope matches Some(GenScopeEnum::Ip(g)) && g.beg
                == beg && g.end == end && c.gen_type@ == "ip"@ && c.gen_fmt is None,
            forall|k: Seq<char>| k != name@ ==> r.get(k) == self.get(k),
    {
        self.insert_conf(name, FieldGenConf::ip_of(beg, end))
    }

    /// Sets `name` to free text, with no range.
    pub fn chars(self, name: String) -> (r: FieldGenBuilder)
        requires
            self.wf(),
        ensures
            r.wf(),
            r.get(name@) matches Some(c) && c.scope is None && c.gen_type@ == "chars"@
                && c.gen_fmt is None,
            forall|k: Seq<char>| k != name@ ==> r.get(k) == self.get(k),
    {
        self.insert_conf(name, FieldGenConf { scope: None, gen_type: "chars".to_owned(), gen_fmt: None })
    }

    /// Sets `name` to texts picked from `values`.
    pub fn chars_from(self, name: String, values: &[&str]) -> (r: FieldGenBuilder)
        requires
            self.wf(),
        ensures
            r.wf(),
            r.get(name@) matches Some(c) && c.scope matches Some(GenScopeEnum::Chars(v))
                && v@.len() == values@.len() && (forall|i: int|
                0 <= i < values@.len() ==> #[trigger] v@[i]@ == values@[i]@) && c.gen_type@
                == "chars"@ && c.gen_fmt is None,
            forall|k: Seq<char>| k != name@ ==> r.get(k) == self.get(k),
    {
        self.insert_conf(name, FieldGenConf::chars_from(values))
    }

    /// Renders the field `name` with `fmt`; nothing changes when `name` has no
    /// generator.
    pub fn with_fmt(self, name: &str, fmt: String) -> (r: FieldGenBuilder)
        requires
            self.wf(),
        ensures
            r.wf(),
            match self.get(name@) {
                Some(c) => r.get(name@) matches Some(d) && d.scope == c.scope && d.gen_type
                    == c.gen_type && d.gen_fmt == Some(fmt),
                None => r.get(name@) is None,
            },
            forall|k: Seq<char>| k != name@ ==> r.get(k) == self.get(k),
    {
        match self.find(name) {
            Some(i) => {
                proof {
                    let j = choose|j: int| 0 <= j < self.items@.len() && (#[trigger] self.items@[j]).0@ == name@;
                    assert(self.items@[j].0@ == self.items@[i as int].0@);
                }
                let mut items = self.items;
                let ghost old_items = items@;
                let (key, conf) = items.remove(i);
                let conf = conf.with_fmt(fmt);
                items.insert(i, (key, conf));
                proof {
                    assert forall|a: int| 0 <= a < items@.len() implies (#[trigger] items@[a]).0@
                        == old_items[a].0@ && (a != i ==> items@[a] == old_items[a]) by {}
                }
                let b = FieldGenBuilder { items };
                proof {
                    assert(b.items@[i as int].0@ == name@);
                    assert forall|k: Seq<char>| #![auto] k != name@ implies conf_for(b.items@, k)
                        == conf_for(old_items, k) by {
                        if exists|j: int| 0 <= j < b.items@.len() && (#[trigger] b.items@[j]).0@ == k {
                            let j = choose|j: int| 0 <= j < b.items@.len() && (#[trigger] b.items@[j]).0@ == k;
                            assert(old_items[j].0@ == k);
                        }
                        if exists|j: int| 0 <= j < old_items.len() && (#[trigger] old_items[j]).0@ == k {
                            let j = choose|j: int| 0 <= j < old_items.len() && (#[trigger] old_items[j]).0@ == k;
                            assert(b.items@[j].0@ == k);
                        }
                    }
                    let j = choose|j: int| 0 <= j < b.items@.len() && (#[trigger] b.items@[j]).0@ == name@;
                    assert(old_items[j].0@ == name@);
                }
                b
            },
            None => self,
        }
    }

    /// The generators, each with its field name.
    pub fn build(self) -> (r: Vec<(String, FieldGenConf)>)
        ensures
            r@ == self.entries(),
    {
        self.items
    }
}

} // verus!
