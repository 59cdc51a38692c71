//! Rules: groups of field configurations with their separators, the rule
//! expression with its pipes and annotations, and the inheritance of
//! annotations by the rules of a package. The field configuration itself is a
//! type parameter `F`.
use vstd::prelude::*;
use crate::group::{group_of_word, GroupSeq, WplGroupType};
use crate::sep::{overridden, WplSep};
use crate::tag::{ann_merged, copy_view, AnnFun, WplTag};

verus! {

/// A group of fields with its kind, and the separator and length set on it.
pub struct WplGroup<F> {
    pub meta: WplGroupType,
    pub fields: Vec<F>,
    pub base_group_sep: Option<WplSep>,
    pub base_group_len: Option<usize>,
}

/// The group kind that an optional keyword gives: the kind it names, else a sequence.
pub open spec fn meta_of(meta_str: Option<Seq<char>>) -> WplGroupType {
    match meta_str {
        Some(w) => match group_of_word(w) {
            Some(t) => t,
            None => WplGroupType::Sequence(GroupSeq),
        },
        None => WplGroupType::Sequence(GroupSeq),
    }
}

impl<F> WplGroup<F> {
    /// A sequence group of `fields` with no separator or length of its own.
    pub fn new(fields: Vec<F>) -> (r: Self)
        ensures
            r.meta == WplGroupType::Sequence(GroupSeq),
            r.fields == fields,
            r.base_group_sep is None,
            r.base_group_len is None,
    {
        WplGroup { meta: WplGroupType::default(), fields, base_group_sep: None, base_group_len: None }
    }

    pub fn first(&self) -> (r: Option<&F>)
        ensures
            self.fields@.len() == 0 ==> r is None,
            self.fields@.len() > 0 ==> r == Some(&self.fields@[0]),
    {
        if self.fields.len() == 0 {
            None
        } else {
            Some(&self.fields[0])
        }
    }

    /// Sets the kind from its keyword; an absent or unknown keyword gives a sequence.
    pub fn meta_from(&mut self, meta_str: Option<&str>)
        ensures
            final(self).meta == meta_of(
                match meta_str {
                    Some(d) => Some(d@),
                    None => None,
                },
            ),
            final(self).fields == old(self).fields,
            final(self).base_group_sep == old(self).base_group_sep,
            final(self).base_group_len == old(self).base_group_len,
    {
        if let Some(data) = meta_str {
            if let Ok(meta) = WplGroupType::from_text(data) {
                self.meta = meta;
                return;
            }
        }
        self.meta = WplGroupType::Sequence(GroupSeq);
    }

    /// The separator of the group under the upstream one: the group's own,
    /// overridden by `ups` where `ups` ranks higher; `ups` when the group sets none.
    pub fn resolve_sep(&self, ups: &WplSep) -> (r: WplSep)
        ensures
            r@ == match self.base_group_sep {
                Some(cur) => overridden(cur@, ups@),
                None => ups@,
            },
    {
        match &self.base_group_sep {
            Some(cur) => {
                let mut combo = cur.duplicate();
                combo.override_with(ups);
                combo
            },
            None => ups.duplicate(),
        }
    }
}

/// A rule expression: the preprocessing pipes, the groups and the annotations.
pub struct WplExpress<F> {
    pub pipe_process: Vec<String>,
    pub group: Vec<WplGroup<F>>,
    pub tags: Option<AnnFun>,
}

fn clone_ann(a: &Option<AnnFun>) -> (r: Option<AnnFun>)
    ensures
        r is Some <==> a is Some,
        r matches Some(x) ==> x.tags.pairs() == a->0.tags.pairs() && copy_view(x.copy_raw)
            == copy_view(a->0.copy_raw),
{
    match a {
        Some(x) => Some(x.clone()),
        None => None,
    }
}

/// The annotations an expression holds after inheriting `other`: its own
/// merged with `other` when it has some, else a copy of `other`.
pub open spec fn tags_inherited(old: Option<AnnFun>, other: Option<AnnFun>, new: Option<AnnFun>) -> bool {
    match old {
        Some(t) => new matches Some(n) && n.tags.wf() && ann_merged(t, other, n),
        None => match other {
            None => new is None,
            Some(o) => new matches Some(n) && n.tags.pairs() == o.tags.pairs() && copy_view(
                n.copy_raw,
            ) == copy_view(o.copy_raw),
        },
    }
}

/// The tag maps hold keys in order.
pub open spec fn ann_wf(a: Option<AnnFun>) -> bool {
    a matches Some(t) ==> t.tags.wf()
}

impl<F> WplExpress<F> {
    /// An expression of the given groups, with no pipes and no annotations.
    pub fn new(group: Vec<WplGroup<F>>) -> (r: Self)
        ensures
            r.pipe_process@.len() == 0,
            r.group == group,
            r.tags is None,
    {
        WplExpress { pipe_process: Vec::new(), group, tags: None }
    }

    /// An expression of one sequence group of `fields`.
    pub fn from_fields(fields: Vec<F>) -> (r: Self)
        ensures
            r.pipe_process@.len() == 0,
            r.group@.len() == 1,
            r.group@[0].fields == fields,
            r.group@[0].meta == WplGroupType::Sequence(GroupSeq),
            r.tags is None,
    {
        let mut group = Vec::new();
        group.push(WplGroup::new(fields));
        WplExpress { pipe_process: Vec::new(), group, tags: None }
    }

    /// Inherits the annotations `other`.
    pub fn merge_tags(&mut self, other: &Option<AnnFun>)
        requires
            ann_wf(old(self).tags),
            ann_wf(*other),
        ensures
            tags_inherited(old(self).tags, *other, final(self).tags),
            final(self).group == old(self).group,
            final(self).pipe_process == old(self).pipe_process,
    {
        match self.tags.take() {
            Some(mut t) => {
                t.merge_tags(other);
                self.tags = Some(t);
            },
            None => {
                self.tags = clone_ann(other);
            },
        }
    }
}

/// The statement of a rule.
pub enum WplStatementType<F> {
    Express(WplExpress<F>),
}

impl<F> WplStatementType<F> {
    pub fn first_group(&self) -> (r: Option<&WplGroup<F>>)
        ensures
            match self {
                WplStatementType::Express(e) => if e.group@.len() > 0 {
                    r == Some(&e.group@[0])
                } else {
                    r is None
                },
            },
    {
        match self {
            WplStatementType::Express(rule) => {
                if rule.group.len() == 0 {
                    None
                } else {
                    Some(&rule.group[0])
                }
            },
        }
    }

    pub fn first_field(&self) -> (r: Option<&F>)
        ensures
            match self {
                WplStatementType::Express(e) => if e.group@.len() > 0 && e.group@[0].fields@.len()
                    > 0 {
                    r == Some(&e.group@[0].fields@[0])
                } else {
                    r is None
                },
            },
    {
        match self.first_group() {
            Some(g) => g.first(),
            None => None,
        }
    }

    pub fn tags(&self) -> (r: &Option<AnnFun>)
        ensures
            match self {
                WplStatementType::Express(e) => *r == e.tags,
            },
    {
        match self {
            WplStatementType::Express(rule) => &rule.tags,
        }
    }
}

/// A named rule.
pub struct WplRule<F> {
    pub name: String,
    pub statement: WplStatementType<F>,
}

/// The expression of a statement.
pub open spec fn express_of<F>(s: WplStatementType<F>) -> WplExpress<F> {
    match s {
        WplStatementType::Express(e) => e,
    }
}

impl<F> WplRule<F> {
    pub fn new(name: String, rule: WplStatementType<F>) -> (r: Self)
        ensures
            r.name == name,
            r.statement == rule,
    {
        WplRule { name, statement: rule }
    }

    pub fn get_name(&self) -> (r: &String)
        ensures
            *r == self.name,
    {
        &self.name
    }

    /// The rule's path in package `pkg_name`: `pkg_name/name`.
    pub fn path(&self, pkg_name: &str) -> (r: String)
        ensures
            r@ == pkg_name@ + seq!['/'] + self.name@,
    {
        let mut p = pkg_name.to_owned();
        p.append("/");
        p.append(self.name.as_str());
        proof {
            reveal_strlit("/");
        }
        p
    }

    /// The rule with its annotations replaced by `tags`.
    pub fn add_tags(self, tags: Option<AnnFun>) -> (r: Self)
        ensures
            r.name == self.name,
            express_of(r.statement).tags == tags,
            express_of(r.statement).group == express_of(self.statement).group,
            express_of(r.statement).pipe_process == express_of(self.statement).pipe_process,
    {
        match self.statement {
            WplStatementType::Express(mut define) => {
                define.tags = tags;
                WplRule { name: self.name, statement: WplStatementType::Express(define) }
            },
        }
    }
}

/// Every rule of `rules` inherits the annotations `other`.
pub fn merge_rules_tags<F>(rules: &mut Vec<WplRule<F>>, other: &Option<AnnFun>)
    requires
        forall|i: int| 0 <= i < old(rules)@.len() ==> ann_wf(express_of(#[trigger] old(rules)@[i].statement).tags),
        ann_wf(*other),
    ensures
        final(rules)@.len() == old(rules)@.len(),
        forall|i: int|
            0 <= i < old(rules)@.len() ==> {
                &&& (#[trigger] final(rules)@[i]).name == old(rules)@[i].name
                &&& tags_inherited(
                    express_of(old(rules)@[i].statement).tags,
                    *other,
                    express_of(final(rules)@[i].statement).tags,
                )
                &&& express_of(final(rules)@[i].statement).group == express_of(
                    old(rules)@[i].statement,
                ).group
            },
{
    let n = rules.len();
    let mut i: usize = 0;
    while i < n
        invariant
            n == rules@.len() == old(rules)@.len(),
            i <= n,
            ann_wf(*other),
            forall|j: int| i <= j < n ==> rules@[j] == old(rules)@[j],
            forall|j: int| i <= j < n ==> ann_wf(express_of(#[trigger] old(rules)@[j].statement).tags),
            forall|j: int|
                0 <= j < i ==> {
                    &&& (#[trigger] rules@[j]).name == old(rules)@[j].name
                    &&& tags_inherited(
                        express_of(old(rules)@[j].statement).tags,
                        *other,
                        express_of(rules@[j].statement).tags,
                    )
                    &&& express_of(rules@[j].statement).group == express_of(
                        old(rules)@[j].statement,
                    ).group
                },
        decreases n - i,
    {
        let r = &mut rules[i];
        match &mut r.statement {
            WplStatementType::Express(define) => {
                define.merge_tags(other);
            },
        }
        i = i + 1;
    }
}

/// A rule's name and tags, as rule listings report them.
pub struct WplRuleMeta {
    pub name: String,
    pub tags: Vec<WplTag>,
}

impl WplRuleMeta {
    /// The name of `rule` and its tags in key order.
    pub fn from_rule<F>(rule: &WplRule<F>) -> (r: Self)
        ensures
            r.name == rule.name,
            match express_of(rule.statement).tags {
                Some(t) => {
                    &&& r.tags@.len() == t.tags.pairs().len()
                    &&& forall|i: int|
                        0 <= i < r.tags@.len() ==> (#[trigger] r.tags@[i]).key@ == t.tags.pairs()[i].0
                            && r.tags@[i].val@ == t.tags.pairs()[i].1
                },
                None => r.tags@.len() == 0,
            },
    {
        let tags = match rule.statement.tags() {
            Some(t) => t.export_tags(),
            None => Vec::new(),
        };
        WplRuleMeta { name: rule.name.clone(), tags }
    }
}

} // verus!
