use calabi_bcs::derive_generics::{add_type_bound, deserialize_generics, ParamKind, PlannedParam};

#[test]
fn bounds_go_to_type_parameters() {
    let kinds = vec![ParamKind::Lifetime, ParamKind::Type, ParamKind::Const, ParamKind::Type];
    assert_eq!(add_type_bound(&kinds), vec![1, 3]);
    assert_eq!(add_type_bound(&vec![]), Vec::<usize>::new());
}

#[test]
fn de_lifetime_comes_first_and_outlives_the_others() {
    let kinds = vec![ParamKind::Type, ParamKind::Lifetime, ParamKind::Lifetime];
    let (params, outlived) = deserialize_generics(&kinds);
    assert_eq!(
        params,
        vec![
            PlannedParam::DeLifetime,
            PlannedParam::Existing(0),
            PlannedParam::Existing(1),
            PlannedParam::Existing(2)
        ]
    );
    assert_eq!(outlived, Some(vec![1, 2]));
}

#[test]
fn no_where_clause_without_lifetimes() {
    let (params, outlived) = deserialize_generics(&vec![ParamKind::Type]);
    assert_eq!(params, vec![PlannedParam::DeLifetime, PlannedParam::Existing(0)]);
    assert_eq!(outlived, None);
    let (params, outlived) = deserialize_generics(&vec![]);
    assert_eq!(params, vec![PlannedParam::DeLifetime]);
    assert_eq!(outlived, None);
}
