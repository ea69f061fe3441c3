use yarte_codegen::each::{
    EachError, FieldName, FieldType, InsertPoint, NodePath, Op, Placement, Position, RenderBuf,
    RenderCode,
    ScopeStack, Step, Parent, BlackBox,
};
use yarte_codegen::solver::{Ref, Solver};
use yarte_codegen::table::{EachTable, PatchMode, RenderReport};

fn code_of(mode: PatchMode, fast_clear: bool) -> RenderCode {
    RenderCode { fast_clear, mode, body: vec![], cached: None }
}

fn values(t: &EachTable) -> Vec<u64> {
    t.rows.iter().map(|r| r.value).collect()
}

fn markers(t: &EachTable) -> Vec<u64> {
    t.rows.iter().map(|r| r.t_root).collect()
}

#[test]
fn growth_appends_only_new_rows() {
    let mut t = EachTable::build(&vec![0, 1, 2]);
    assert_eq!(t.len(), 3);
    assert_eq!(values(&t), vec![0, 1, 2]);
    let r = t.render(&code_of(PatchMode::Dirty, true), &vec![0, 1, 2, 3, 4]);
    assert_eq!(r, RenderReport { patched: 0, created: 2, removed: 0, cleared: false });
    assert_eq!(values(&t), vec![0, 1, 2, 3, 4]);
    assert_eq!(markers(&t), vec![0, 0, 0, 0, 0]);
}

#[test]
fn shrink_truncates_to_one_row() {
    let mut t = EachTable::build(&vec![0, 1, 2]);
    t.render(&code_of(PatchMode::Dirty, true), &vec![0, 1, 2, 3, 4]);
    let r = t.render(&code_of(PatchMode::Dirty, true), &vec![0]);
    assert_eq!(r, RenderReport { patched: 0, created: 0, removed: 4, cleared: false });
    assert_eq!(t.len(), 1);
    assert_eq!(values(&t), vec![0]);
}

#[test]
fn outer_change_patches_every_row() {
    let mut s = Solver::new();
    let outer = s.new_var(None).unwrap();
    let item = s.new_var(None).unwrap();
    let list = s.register(&vec![Ref::Var(outer)]).unwrap();
    let mut stack = ScopeStack::new();
    stack.enter(Parent::Expr(list), vec![item]);
    let mut child = stack.leave();
    child.path_nodes.push(NodePath { name: FieldName::Node(list), steps: vec![Step::FirstChild, Step::FirstChild] });
    child.buff_render.push(RenderBuf { vars: vec![item, outer], code: vec![Op::Text { expr: list, node: FieldName::Node(list) }] });
    stack.scopes.push(child);
    let ip = InsertPoint { base: 0, regions: vec![] };
    assert_eq!(stack.gen_each(&s, list, item, None, false, true, &ip), Ok(()));
    let code = stack.scopes[0].sections.last().unwrap();
    assert_eq!(code.render.mode, PatchMode::All);

    let mut t = EachTable::build(&vec![10, 11, 12]);
    assert_eq!(markers(&t), vec![0, 0, 0]);
    let r = t.render(&code.render, &vec![10, 11, 12]);
    assert_eq!(r.patched, 3);
    assert_eq!(r.created, 0);
    assert_eq!(r.removed, 0);
}

#[test]
fn item_only_body_patches_dirty_rows() {
    let mut s = Solver::new();
    let item = s.new_var(None).unwrap();
    let field = s.new_var(Some(item)).unwrap();
    let list = s.register(&vec![]).unwrap();
    let mut stack = ScopeStack::new();
    stack.enter(Parent::Expr(list), vec![item]);
    let mut child = stack.leave();
    child.buff_render.push(RenderBuf { vars: vec![field], code: vec![Op::Section(list)] });
    stack.scopes.push(child);
    let ip = InsertPoint { base: 0, regions: vec![] };
    stack.gen_each(&s, list, item, None, false, true, &ip).unwrap();
    let code = stack.scopes[0].sections.last().unwrap();
    assert_eq!(code.render.mode, PatchMode::Dirty);

    let mut t = EachTable::build(&vec![1, 2, 3]);
    t.mark(1, 4);
    let r = t.render(&code.render, &vec![1, 20, 3]);
    assert_eq!(r.patched, 1);
    assert_eq!(values(&t), vec![1, 20, 3]);
    assert_eq!(markers(&t), vec![0, 0, 0]);
}

#[test]
fn second_render_is_a_no_op() {
    let mut t = EachTable::build(&vec![5, 6]);
    t.mark(0, 1);
    let first = t.render(&code_of(PatchMode::Dirty, true), &vec![7, 6]);
    assert_eq!(first.patched, 1);
    assert_eq!(markers(&t), vec![0, 0]);
    let second = t.render(&code_of(PatchMode::Dirty, true), &vec![7, 6]);
    assert_eq!(second, RenderReport { patched: 0, created: 0, removed: 0, cleared: false });
    assert_eq!(values(&t), vec![7, 6]);
}

#[test]
fn empty_data_clears_the_table() {
    let mut t = EachTable::build(&vec![1, 2, 3]);
    let r = t.render(&code_of(PatchMode::All, true), &vec![]);
    assert_eq!(r, RenderReport { patched: 0, created: 0, removed: 3, cleared: true });
    assert_eq!(t.len(), 0);
    let mut f = EachTable::build(&vec![1]);
    let r = f.render(&code_of(PatchMode::All, false), &vec![]);
    assert_eq!(r, RenderReport { patched: 0, created: 0, removed: 1, cleared: false });
}

#[test]
fn length_follows_data_without_creating_and_removing_together() {
    let mut t = EachTable::build(&vec![]);
    assert_eq!(t.len(), 0);
    for m in [4usize, 2, 2, 7, 0, 3] {
        let before = t.len();
        let data: Vec<u64> = (0..m as u64).collect();
        let r = t.render(&code_of(PatchMode::Skip, true), &data);
        assert_eq!(t.len(), m);
        assert_eq!(r.created, m.saturating_sub(before));
        assert_eq!(r.removed, before.saturating_sub(m));
        assert!(r.created == 0 || r.removed == 0);
    }
}

#[test]
fn insertion_index_adds_regions_and_rows() {
    let ip = InsertPoint { base: 2, regions: vec![7, 9] };
    let p = Position::of(&ip, true);
    assert_eq!(p.index(&vec![3, 4], 5), Some(14));
    let q = Position::of(&ip, false);
    assert_eq!(q.index(&vec![3, 4], 5), Some(9));
    let big = InsertPoint { base: u32::MAX, regions: vec![1] };
    assert_eq!(Position::of(&big, false).index(&vec![1], 0), None);
    assert_eq!(Position::of(&big, false).index(&vec![0], 0), Some(u32::MAX));
}

#[test]
fn gen_each_folds_into_parent() {
    let mut s = Solver::new();
    let item = s.new_var(None).unwrap();
    let list = s.register(&vec![]).unwrap();
    let mut stack = ScopeStack::new();
    stack.scopes[0].steps.push(Step::FirstChild);
    stack.scopes[0].steps.push(Step::NextSibling);
    stack.enter(Parent::Expr(list), vec![item]);
    assert_eq!(stack.scopes[1].parent_id, 2);
    let mut child = stack.leave();
    child.path_nodes.push(NodePath { name: FieldName::Node(list), steps: vec![Step::FirstChild, Step::FirstChild, Step::NextSibling] });
    child.path_events.push(NodePath { name: FieldName::Node(list), steps: vec![Step::FirstChild, Step::FirstChild] });
    child.buff_hydrate.push(Op::Listen { expr: list, node: FieldName::Node(list) });
    stack.scopes.push(child);
    let ip = InsertPoint { base: 1, regions: vec![] };
    stack.gen_each(&s, list, item, None, true, false, &ip).unwrap();
    assert_eq!(stack.scopes.len(), 1);
    let top = &stack.scopes[0];
    assert_eq!(top.buff_build, vec![Op::Section(list)]);
    assert_eq!(top.buff_new, vec![Op::Section(list)]);
    assert_eq!(top.buff_hydrate, vec![Op::Section(list)]);
    assert_eq!(top.path_nodes.last().unwrap().steps, vec![Step::FirstChild, Step::NextSibling]);
    assert_eq!(
        top.black_box,
        vec![
            BlackBox { name: FieldName::Table(list), ty: FieldType::Rows(list) },
            BlackBox { name: FieldName::TableDom(list), ty: FieldType::Element },
        ]
    );
    let code = &top.sections[0];
    assert_eq!(code.build.paths[0].steps, vec![Step::FirstChild, Step::NextSibling]);
    assert_eq!(code.new.paths.len(), 2);
    assert_eq!(code.new.paths[1].steps, vec![Step::FirstChild]);
    assert_eq!(code.new.placement, Placement::BeforeCached);
    assert!(!code.render.fast_clear);
    assert_eq!(code.render.mode, PatchMode::Skip);
    assert!(code.render.cached.as_ref().unwrap().after_rows);
    assert!(code.hydrate.is_some());
    assert_eq!(code.fields, vec![BlackBox { name: FieldName::Root, ty: FieldType::Element }]);
}

#[test]
fn gen_each_rejects_multiple_roots() {
    let mut s = Solver::new();
    let item = s.new_var(None).unwrap();
    let list = s.register(&vec![]).unwrap();
    let mut stack = ScopeStack::new();
    stack.enter(Parent::Expr(list), vec![item]);
    let mut child = stack.leave();
    child.path_nodes.push(NodePath { name: FieldName::Node(list), steps: vec![Step::FirstChild, Step::NextSibling] });
    stack.scopes.push(child);
    let ip = InsertPoint { base: 0, regions: vec![] };
    assert_eq!(stack.gen_each(&s, list, item, None, false, true, &ip), Err(EachError::MultipleRoots));
    assert_eq!(stack.scopes.len(), 2);
}

#[test]
fn wasm_server() {
    // A table body repeating `<tr><td>{id}</td><td>{message}</td></tr>` over
    // two fortunes, ids 0 and 1 with messages "foo" and "bar".
    let mut s = Solver::new();
    let fortunes = s.new_var(None).unwrap();
    let fortune = s.new_var(None).unwrap();
    let id = s.new_var(Some(fortune)).unwrap();
    let message = s.new_var(Some(fortune)).unwrap();
    let each = s.register(&vec![Ref::Var(fortunes)]).unwrap();
    let id_text = s.register(&vec![Ref::Var(id)]).unwrap();
    let message_text = s.register(&vec![Ref::Var(message)]).unwrap();

    let mut stack = ScopeStack::new();
    stack.step(Step::FirstChild);
    stack.enter(Parent::Expr(each), vec![fortune]);
    stack.step(Step::FirstChild);
    stack.step(Step::FirstChild);
    stack.step(Step::FirstChild);
    stack.record(FieldName::Node(id_text), false);
    stack.step(Step::NextSibling);
    let mut child = stack.leave();
    child.path_nodes.push(NodePath {
        name: FieldName::Node(message_text),
        steps: vec![Step::FirstChild, Step::FirstChild, Step::FirstChild, Step::NextSibling],
    });
    child.buff_render.push(RenderBuf {
        vars: vec![id],
        code: vec![Op::Text { expr: id_text, node: FieldName::Node(id_text) }],
    });
    child.buff_render.push(RenderBuf {
        vars: vec![message],
        code: vec![Op::Text { expr: message_text, node: FieldName::Node(message_text) }],
    });
    stack.scopes.push(child);
    let ip = InsertPoint { base: 0, regions: vec![] };
    stack.gen_each(&s, each, fortune, None, false, true, &ip).unwrap();

    let top = &stack.scopes[0];
    assert_eq!(top.path_nodes[0].steps, vec![Step::FirstChild]);
    let code = &top.sections[0];
    assert_eq!(code.render.mode, PatchMode::Dirty);
    assert_eq!(code.new.placement, Placement::Append);
    assert_eq!(code.build.paths[0].steps, vec![Step::FirstChild, Step::FirstChild]);
    assert_eq!(code.build.paths[1].steps, vec![Step::FirstChild, Step::FirstChild, Step::NextSibling]);
    let mut guard = top.buff_render[0].vars.clone();
    guard.sort();
    assert_eq!(guard, vec![fortunes]);

    let mut t = EachTable::build(&vec![0, 1]);
    assert_eq!(values(&t), vec![0, 1]);
    let r = t.render(&code.render, &vec![0, 1]);
    assert_eq!(r, RenderReport { patched: 0, created: 0, removed: 0, cleared: false });
}

#[test]
fn steps_and_records_build_paths() {
    let mut stack = ScopeStack::new();
    stack.enter(Parent::Expr(3), vec![]);
    stack.step(Step::FirstChild);
    stack.step(Step::FirstChild);
    stack.record(FieldName::Node(4), false);
    stack.step(Step::NextSibling);
    stack.record(FieldName::Node(5), true);
    let top = stack.scopes.last().unwrap();
    assert_eq!(top.path_nodes.len(), 1);
    assert_eq!(top.path_nodes[0].steps, vec![Step::FirstChild, Step::FirstChild]);
    assert_eq!(top.path_events[0].name, FieldName::Node(5));
    assert_eq!(top.path_events[0].steps, vec![Step::FirstChild, Step::FirstChild, Step::NextSibling]);
    assert_eq!(stack.scopes[0].steps.len(), 0);
}

#[test]
fn non_local_body_patches_every_row_on_any_pass() {
    let mut t = EachTable::build(&vec![1, 2, 3]);
    let r = t.render(&code_of(PatchMode::All, true), &vec![4, 5]);
    assert_eq!(r, RenderReport { patched: 2, created: 0, removed: 1, cleared: false });
    assert_eq!(values(&t), vec![4, 5]);
    let r = t.render(&code_of(PatchMode::All, true), &vec![4, 5]);
    assert_eq!(r.patched, 2);
}

#[test]
fn body_without_render_work_patches_nothing() {
    let mut t = EachTable::build(&vec![1, 2]);
    t.mark(0, 1);
    let r = t.render(&code_of(PatchMode::Skip, true), &vec![7, 8, 9]);
    assert_eq!(r, RenderReport { patched: 0, created: 1, removed: 0, cleared: false });
    assert_eq!(values(&t), vec![1, 2, 9]);
    assert_eq!(markers(&t), vec![1, 0, 0]);
}

#[test]
fn build_roots_follow_one_another() {
    let mut s = Solver::new();
    let item = s.new_var(None).unwrap();
    let list = s.register(&vec![]).unwrap();
    let mut stack = ScopeStack::new();
    stack.enter(Parent::Expr(list), vec![item]);
    let ip = InsertPoint { base: 2, regions: vec![8] };
    stack.gen_each(&s, list, item, None, false, true, &ip).unwrap();
    let build = &stack.scopes[0].sections[0].build;
    let first = build.root_index(&vec![3], None);
    assert_eq!(first, Some(5));
    let second = build.root_index(&vec![3], first);
    assert_eq!(second, Some(6));
    assert_eq!(build.root_index(&vec![3], Some(u32::MAX)), None);
}
