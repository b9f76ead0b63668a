use vstd::prelude::*;
use crate::model::{
    FieldsView,
    binding_named, bindings_view, cases_view, field_names, has_name, insert_binding, insert_bindings,
    positional_field_name, unique_names, BindError, Binding, BindingView, Case, CaseView, ErrorView, Fields,
    VariantDecl, VariantView,
};

verus! {

/// The bindings that a variant's stored fields give, one `Field` per field.
pub open spec fn base_bindings(v: VariantView) -> Seq<BindingView> {
    insert_bindings(Seq::empty(), field_names(v.fields).map_values(|n: Seq<char>| BindingView::Field(n)))
}

/// The case that one annotation group gives: the stored fields, then the group's bindings.
pub open spec fn case_of_group(v: VariantView, g: Seq<BindingView>) -> CaseView {
    CaseView { variant: v, bindings: insert_bindings(base_bindings(v), g) }
}

/// The names of a variant's named fields (none for a tuple or unit variant).
pub open spec fn named_fields(f: FieldsView) -> Seq<Seq<char>> {
    match f {
        FieldsView::Named(ns) => ns,
        _ => Seq::empty(),
    }
}

/// Whether `n` names one of the variant's named fields.
fn is_named_field(v: &VariantDecl, n: &String) -> (r: bool)
    ensures
        r == named_fields(v@.fields).contains(n@),
{
    match &v.fields {
        Fields::Named(ns) => {
            let ghost names = named_fields(v@.fields);
            let mut i: usize = 0;
            while i < ns.len()
                invariant
                    i <= ns@.len(),
                    names == ns@.map_values(|s: String| s@),
                    names == named_fields(v@.fields),
                    forall|j: int| 0 <= j < i ==> names[j] != n@,
                decreases ns@.len() - i,
            {
                if ns[i].eq(n) {
                    assert(names[i as int] == n@);
                    return true;
                }
                i = i + 1;
            }
            false
        },
        _ => false,
    }
}

/// Some binding of the group is named like one of the variant's named fields.
/// (A positional field's `_0`, `_1`, ... may be rebound.)
pub open spec fn redefines_field(v: VariantView, g: Seq<BindingView>) -> bool {
    exists|k: int| 0 <= k < g.len() && named_fields(v.fields).contains(#[trigger] g[k].name())
}

/// The cases of a variant: one per annotation group, or one from its fields alone.
pub open spec fn cases_of_variant(v: VariantView, groups: Seq<Seq<BindingView>>) -> Seq<CaseView> {
    if groups.len() == 0 {
        seq![CaseView { variant: v, bindings: base_bindings(v) }]
    } else {
        groups.map_values(|g: Seq<BindingView>| case_of_group(v, g))
    }
}

/// The first binding, over the groups in order, that redefines a stored field is
/// binding `k` of group `gi`.
pub open spec fn is_first_redefinition(
    v: VariantView,
    groups: Seq<Seq<BindingView>>,
    gi: int,
    k: int,
) -> bool {
    &&& 0 <= gi < groups.len()
    &&& 0 <= k < groups[gi].len()
    &&& named_fields(v.fields).contains(groups[gi][k].name())
    &&& forall|j: int| 0 <= j < gi ==> !redefines_field(v, #[trigger] groups[j])
    &&& forall|j: int| 0 <= j < k ==> !named_fields(v.fields).contains(#[trigger] groups[gi][j].name())
}

/// The view of annotation groups.
pub open spec fn groups_view(groups: Seq<Vec<Binding>>) -> Seq<Seq<BindingView>> {
    groups.map_values(|g: Vec<Binding>| bindings_view(g@))
}

proof fn lemma_insert_unique(bs: Seq<BindingView>, b: BindingView)
    requires
        unique_names(bs),
    ensures
        unique_names(insert_binding(bs, b)),
        has_name(insert_binding(bs, b), b.name()),
        forall|n: Seq<char>| #[trigger]
            has_name(insert_binding(bs, b), n) <==> (has_name(bs, n) || n == b.name()),
{
    let r = insert_binding(bs, b);
    if has_name(bs, b.name()) {
        let i = choose|i: int| 0 <= i < bs.len() && bs[i].name() == b.name();
        assert(r[i] == b);
        assert forall|n: Seq<char>| #[trigger] has_name(r, n) <==> (has_name(bs, n) || n == b.name()) by {
            if has_name(bs, n) {
                let j = choose|j: int| 0 <= j < bs.len() && bs[j].name() == n;
                if j != i {
                    assert(r[j] == bs[j]);
                }
            }
            if has_name(r, n) {
                let j = choose|j: int| 0 <= j < r.len() && r[j].name() == n;
                if j != i {
                    assert(r[j] == bs[j]);
                }
            }
        }
    } else {
        assert(r[bs.len() as int] == b);
        assert forall|n: Seq<char>| #[trigger] has_name(r, n) <==> (has_name(bs, n) || n == b.name()) by {
            if has_name(bs, n) {
                let j = choose|j: int| 0 <= j < bs.len() && bs[j].name() == n;
                assert(r[j] == bs[j]);
            }
            if has_name(r, n) {
                let j = choose|j: int| 0 <= j < r.len() && r[j].name() == n;
                if j < bs.len() {
                    assert(r[j] == bs[j]);
                }
            }
        }
    }
}

/// The index of the binding named `n`.
pub fn find_binding(bs: &Vec<Binding>, n: &String) -> (r: Option<usize>)
    ensures
        r matches Some(i) ==> i < bs@.len() && bs@[i as int]@.name() == n@,
        r is None ==> !has_name(bindings_view(bs@), n@),
{
    let mut i: usize = 0;
    while i < bs.len()
        invariant
            i <= bs@.len(),
            forall|j: int| 0 <= j < i ==> bs@[j]@.name() != n@,
        decreases bs@.len() - i,
    {
        let same: bool = bs[i].name().eq(n);
        assert(same == (bs@[i as int]@.name() == n@));
        if same {
            return Some(i);
        }
        i = i + 1;
    }
    proof {
        if has_name(bindings_view(bs@), n@) {
            let j = choose|j: int| 0 <= j < bs@.len() && bindings_view(bs@)[j].name() == n@;
            assert(bs@[j]@.name() != n@);
        }
    }
    None
}

proof fn lemma_binding_at(bs: Seq<BindingView>, i: int)
    requires
        unique_names(bs),
        0 <= i < bs.len(),
    ensures
        binding_named(bs, bs[i].name()) == Some(bs[i]),
{
    let n = bs[i].name();
    assert(has_name(bs, n));
    let j = choose|j: int| 0 <= j < bs.len() && bs[j].name() == n;
    assert(i == j);
}

/// Adds a binding, replacing the one of the same name if there is one.
fn insert_into(bs: &mut Vec<Binding>, b: Binding)
    requires
        unique_names(bindings_view(old(bs)@)),
    ensures
        bindings_view(final(bs)@) == insert_binding(bindings_view(old(bs)@), b@),
        unique_names(bindings_view(final(bs)@)),
{
    proof {
        lemma_insert_unique(bindings_view(old(bs)@), b@);
    }
    let ghost old_view = bindings_view(bs@);
    match find_binding(bs, b.name()) {
        Some(i) => {
            proof {
                let n = b@.name();
                assert(old_view[i as int].name() == n);
                assert(has_name(old_view, n));
                let j = choose|j: int| 0 <= j < old_view.len() && old_view[j].name() == n;
                assert(i == j);
            }
            bs.set(i, b);
            assert(bindings_view(bs@) =~= insert_binding(old_view, b@));
        },
        None => {
            bs.push(b);
            assert(bindings_view(bs@) =~= insert_binding(old_view, b@));
        },
    }
}

fn copy_bindings(bs: &Vec<Binding>) -> (r: Vec<Binding>)
    ensures
        bindings_view(r@) == bindings_view(bs@),
{
    let mut out: Vec<Binding> = Vec::new();
    let mut i: usize = 0;
    while i < bs.len()
        invariant
            i <= bs@.len(),
            out@.len() == i,
            forall|k: int| 0 <= k < i ==> out@[k]@ == bs@[k]@,
        decreases bs@.len() - i,
    {
        out.push(bs[i].duplicate());
        i = i + 1;
    }
    assert(bindings_view(out@) =~= bindings_view(bs@));
    out
}

/// The bindings of a variant's stored fields; positional fields are named `_0`, `_1`, ...
pub fn field_bindings(v: &VariantDecl) -> (r: Vec<Binding>)
    ensures
        bindings_view(r@) == base_bindings(v@),
        unique_names(bindings_view(r@)),
{
    let ghost fs = field_names(v@.fields).map_values(|n: Seq<char>| BindingView::Field(n));
    let mut out: Vec<Binding> = Vec::new();
    let count: usize = match &v.fields {
        Fields::Named(ns) => ns.len(),
        Fields::Unnamed(k) => *k,
        Fields::Unit => 0,
    };
    assert(count == fs.len());
    let mut i: usize = 0;
    while i < count
        invariant
            i <= count,
            count == fs.len(),
            fs == field_names(v@.fields).map_values(|n: Seq<char>| BindingView::Field(n)),
            bindings_view(out@) == insert_bindings(Seq::empty(), fs.subrange(0, i as int)),
            unique_names(bindings_view(out@)),
        decreases count - i,
    {
        let name = match &v.fields {
            Fields::Named(ns) => ns[i].clone(),
            Fields::Unnamed(_) => positional_field_name(i),
            Fields::Unit => positional_field_name(i),
        };
        assert(BindingView::Field(name@) == fs[i as int]);
        insert_into(&mut out, Binding::Field { name });
        assert(fs.subrange(0, i as int + 1).drop_last() =~= fs.subrange(0, i as int));
        i = i + 1;
    }
    assert(fs.subrange(0, count as int) =~= fs);
    out
}

/// Builds the cases of one variant from its stored fields and its annotation groups.
/// Each group gives one case: the stored fields' bindings, then the group's bindings
/// in order, a later one of a name replacing an earlier one. A variant with no group
/// gives one case from its stored fields alone. A binding named like a stored field
/// is rejected.
pub fn get_cases(variant: &VariantDecl, groups: &Vec<Vec<Binding>>) -> (r: Result<Vec<Case>, BindError>)
    ensures
        r is Ok <==> (forall|gi: int| 0 <= gi < groups@.len()
            ==> !redefines_field(variant@, #[trigger] groups_view(groups@)[gi])),
        r matches Ok(cs) ==> cases_view(cs@) == cases_of_variant(variant@, groups_view(groups@)),
        r matches Ok(cs) ==> forall|i: int| 0 <= i < cs@.len()
            ==> unique_names(#[trigger] cases_view(cs@)[i].bindings),
        r matches Err(e) ==> exists|gi: int, k: int|
            is_first_redefinition(variant@, groups_view(groups@), gi, k)
            && e@ == ErrorView::FieldRedefined(variant@.name, #[trigger] groups_view(groups@)[gi][k].name()),
{
    let ghost gv = groups_view(groups@);
    let ghost v = variant@;
    let base = field_bindings(variant);
    if groups.len() == 0 {
        let cs = vec![Case { variant: variant.duplicate(), bindings: base }];
        assert(cases_view(cs@) =~= cases_of_variant(v, gv));
        return Ok(cs);
    }
    let mut cases: Vec<Case> = Vec::new();
    let mut gi: usize = 0;
    while gi < groups.len()
        invariant
            gi <= groups@.len(),
            gv == groups_view(groups@),
            v == variant@,
            bindings_view(base@) == base_bindings(v),
            unique_names(bindings_view(base@)),
            cases@.len() == gi,
            forall|j: int| 0 <= j < gi ==> !redefines_field(v, #[trigger] gv[j]),
            forall|j: int| 0 <= j < gi ==> #[trigger] cases@[j]@ == case_of_group(v, gv[j]),
            forall|j: int| 0 <= j < gi ==> unique_names(#[trigger] cases@[j]@.bindings),
        decreases groups@.len() - gi,
    {
        let g = &groups[gi];
        assert(gv[gi as int] == bindings_view(g@));
        let mut bs = copy_bindings(&base);
        let mut k: usize = 0;
        while k < g.len()
            invariant
                k <= g@.len(),
                gi < groups@.len(),
                g == groups@[gi as int],
                gv == groups_view(groups@),
                gv[gi as int] == bindings_view(g@),
                v == variant@,
                bindings_view(base@) == base_bindings(v),
                bindings_view(bs@) == insert_bindings(base_bindings(v), bindings_view(g@).subrange(0, k as int)),
                unique_names(bindings_view(bs@)),
                forall|j: int| 0 <= j < gi ==> !redefines_field(v, #[trigger] gv[j]),
                forall|j: int| 0 <= j < k ==> !named_fields(v.fields).contains(#[trigger] gv[gi as int][j].name()),
            decreases g@.len() - k,
        {
            let b = &g[k];
            assert(gv[gi as int][k as int] == b@);
            if is_named_field(variant, b.name()) {
                let e = BindError::FieldRedefined { variant: variant.name.clone(), name: b.name().clone() };
                assert(is_first_redefinition(v, gv, gi as int, k as int));
                return Err(e);
            }
            insert_into(&mut bs, b.duplicate());
            assert(bindings_view(g@).subrange(0, k as int + 1).drop_last()
                =~= bindings_view(g@).subrange(0, k as int));
            k = k + 1;
        }
        assert(bindings_view(g@).subrange(0, k as int) =~= bindings_view(g@));
        assert(!redefines_field(v, gv[gi as int]));
        cases.push(Case { variant: variant.duplicate(), bindings: bs });
        gi = gi + 1;
    }
    assert(cases_view(cases@) =~= cases_of_variant(v, gv));
    Ok(cases)
}


impl Case {
    /// The case's binding for slot `n`.
    pub fn binding(&self, n: &String) -> (r: Option<&Binding>)
        requires
            unique_names(self@.bindings),
        ensures
            r matches Some(b) ==> self@.binding(n@) == Some(b@),
            r is None ==> self@.binding(n@) is None,
    {
        match find_binding(&self.bindings, n) {
            Some(i) => {
                proof {
                    lemma_binding_at(self@.bindings, i as int);
                }
                Some(&self.bindings[i])
            },
            None => None,
        }
    }

    /// The case binds slot `n`, with a binding of any kind.
    pub fn has_binding(&self, n: &String) -> (r: bool)
        ensures
            r == self@.binds(n@),
    {
        match find_binding(&self.bindings, n) {
            Some(i) => {
                assert(self@.bindings[i as int].name() == n@);
                true
            },
            None => false,
        }
    }
}

} // verus!
