use altius_core::dim::Dimensions;
use altius_core::error::SessionError;
use altius_core::model::Model;
use altius_core::node::{Conv2d, MaxPool, Node, NodeId, Op};
use altius_core::op::infer_shapes;
use altius_core::plan::create_execution_plan;
use altius_core::session::{runs_inline, InterpreterSessionBuilder, NodeCall};
use altius_core::tensor::{F32Bits, Tensor, TensorElemType, TypedShape};
use altius_core::value::{Value, ValueArena, ValueId};

fn dims(v: &[usize]) -> Dimensions {
    Dimensions(v.to_vec())
}

fn weights(v: &[usize]) -> Tensor {
    Tensor::zeros_of_type(TensorElemType::F32, dims(v))
}

fn ints(v: &[i64]) -> Tensor {
    Tensor::new(dims(&[v.len()]), v.to_vec())
}

fn conv_same_upper() -> Op {
    Op::Conv2d(Conv2d {
        auto_pad: "SAME_UPPER".to_string(),
        dilations: dims(&[1, 1]),
        group: 1,
        kernel_shape: dims(&[5, 5]),
        strides: dims(&[1, 1]),
        padding: dims(&[]),
    })
}

fn max_pool(k: usize) -> Op {
    Op::MaxPool(MaxPool {
        auto_pad: String::new(),
        kernel_shape: dims(&[k, k]),
        strides: dims(&[k, k]),
        padding: dims(&[0, 0, 0, 0]),
    })
}

struct Mnist {
    model: Model,
    input: ValueId,
    output: ValueId,
    nodes: Vec<NodeId>,
    reshape1: NodeId,
}

fn mnist() -> Mnist {
    let mut m = Model::default();
    let mut nodes = vec![];

    let conv0_in = m.values.new_val_named_and_shaped(
        "input".to_string(),
        TypedShape::new(dims(&[1, 1, 28, 28]), TensorElemType::F32),
    );
    let conv0_weight = m.values.new_val();
    let conv0_out = m.values.new_val();
    nodes.push(
        Node::new(conv_same_upper())
            .with_in(conv0_in)
            .with_in(conv0_weight)
            .with_out(conv0_out)
            .allocate(&mut m.nodes),
    );

    let add0_const = m.values.new_val();
    let add0_out = m.values.new_val();
    nodes.push(
        Node::new(Op::Add)
            .with_in(conv0_out)
            .with_in(add0_const)
            .with_out(add0_out)
            .allocate(&mut m.nodes),
    );

    let relu0_out = m.values.new_val();
    nodes.push(Node::new(Op::ReLU).with_in(add0_out).with_out(relu0_out).allocate(&mut m.nodes));

    let maxpool0_out = m.values.new_val();
    nodes.push(
        Node::new(max_pool(2)).with_in(relu0_out).with_out(maxpool0_out).allocate(&mut m.nodes),
    );

    let conv1_weight = m.values.new_val();
    let conv1_out = m.values.new_val();
    nodes.push(
        Node::new(conv_same_upper())
            .with_in(maxpool0_out)
            .with_in(conv1_weight)
            .with_out(conv1_out)
            .allocate(&mut m.nodes),
    );

    let add1_const = m.values.new_val();
    let add1_out = m.values.new_val();
    nodes.push(
        Node::new(Op::Add)
            .with_in(conv1_out)
            .with_in(add1_const)
            .with_out(add1_out)
            .allocate(&mut m.nodes),
    );

    let relu1_out = m.values.new_val();
    nodes.push(Node::new(Op::ReLU).with_in(add1_out).with_out(relu1_out).allocate(&mut m.nodes));

    let maxpool1_out = m.values.new_val();
    nodes.push(
        Node::new(max_pool(3)).with_in(relu1_out).with_out(maxpool1_out).allocate(&mut m.nodes),
    );

    let reshape0_const = m.values.new_val();
    let reshape0_out = m.values.new_val();
    nodes.push(
        Node::new(Op::Reshape)
            .with_in(maxpool1_out)
            .with_in(reshape0_const)
            .with_out(reshape0_out)
            .allocate(&mut m.nodes),
    );

    let reshape1_const0 = m.values.new_val();
    let reshape1_const1 = m.values.new_val();
    let reshape1_out = m.values.new_val();
    let reshape1 = Node::new(Op::Reshape)
        .with_in(reshape1_const0)
        .with_in(reshape1_const1)
        .with_out(reshape1_out)
        .allocate(&mut m.nodes);
    nodes.push(reshape1);

    let matmul0_out = m.values.new_val();
    nodes.push(
        Node::new(Op::MatMul)
            .with_in(reshape0_out)
            .with_in(reshape1_out)
            .with_out(matmul0_out)
            .allocate(&mut m.nodes),
    );

    let add2_const = m.values.new_val();
    let add2_out = m.values.new_val();
    nodes.push(
        Node::new(Op::Add)
            .with_in(matmul0_out)
            .with_in(add2_const)
            .with_out(add2_out)
            .allocate(&mut m.nodes),
    );

    m.inputs.push(conv0_in);
    m.outputs.push(add2_out);

    m.inits.insert(add0_const, weights(&[8, 1, 1]));
    m.inits.insert(add1_const, weights(&[16, 1, 1]));
    m.inits.insert(add2_const, weights(&[1, 10]));
    m.inits.insert(conv0_weight, weights(&[8, 1, 5, 5]));
    m.inits.insert(conv1_weight, weights(&[16, 8, 5, 5]));
    m.inits.insert(reshape0_const, ints(&[1, 256]));
    m.inits.insert(reshape1_const0, weights(&[16, 4, 4, 10]));
    m.inits.insert(reshape1_const1, ints(&[256, 10]));

    Mnist { model: m, input: conv0_in, output: add2_out, nodes, reshape1 }
}

fn is_topological(m: &Model, order: &[NodeId], allocated: &[(NodeId, Node)]) -> bool {
    let node = |id: &NodeId| &allocated.iter().find(|(n, _)| n == id).unwrap().1;
    for (p, id) in order.iter().enumerate() {
        if order[..p].contains(id) {
            return false;
        }
        for input in &node(id).inputs {
            let given = m.inits.contains_key(input) || m.inputs.contains(input);
            let written = order[..p].iter().any(|q| node(q).outputs.contains(input));
            if !given && !(written && !m.outputs.contains(input)) {
                return false;
            }
        }
    }
    true
}

#[test]
fn mnist_model() {
    let net = mnist();
    let order = net.model.topo_sort_nodes();
    assert_eq!(order.len(), 12);
    assert_eq!(order, net.nodes);
    for id in &net.nodes {
        assert_eq!(order.iter().filter(|n| *n == id).count(), 1);
    }
    let place = |id: NodeId| order.iter().position(|n| *n == id).unwrap();
    for pair in net.nodes[..9].windows(2) {
        assert!(place(pair[0]) < place(pair[1]));
    }
    assert!(place(net.reshape1) < place(net.nodes[10]));
    assert!(place(net.nodes[8]) < place(net.nodes[10]));
    assert!(place(net.nodes[10]) < place(net.nodes[11]));
}

#[test]
fn topo_sort_is_deterministic() {
    let a = mnist();
    let b = mnist();
    let order_a = a.model.topo_sort_nodes();
    let order_b = b.model.topo_sort_nodes();
    assert_eq!(order_a, a.model.topo_sort_nodes());
    assert_eq!(
        order_a.iter().map(|n| n.index).collect::<Vec<_>>(),
        order_b.iter().map(|n| n.index).collect::<Vec<_>>()
    );
}

struct Graph {
    model: Model,
    values: Vec<ValueId>,
    nodes: Vec<(NodeId, Node)>,
}

fn graph(n_values: usize, edges: &[(&[usize], &[usize])]) -> Graph {
    let mut model = Model::default();
    let values: Vec<ValueId> = (0..n_values).map(|_| model.values.new_val()).collect();
    let mut nodes = vec![];
    for (ins, outs) in edges {
        let node = Node::new(Op::ReLU)
            .with_ins(ins.iter().map(|&i| values[i]).collect())
            .with_outs(outs.iter().map(|&i| values[i]).collect());
        let id = node.clone().allocate(&mut model.nodes);
        nodes.push((id, node));
    }
    Graph { model, values, nodes }
}

#[test]
fn topo_sort_puts_writers_before_readers() {
    let mut g = graph(6, &[(&[3, 4], &[5]), (&[1], &[3]), (&[0], &[1, 2]), (&[2, 1], &[4])]);
    g.model.inputs.push(g.values[0]);
    g.model.outputs.push(g.values[5]);
    let order = g.model.topo_sort_nodes();
    let ids: Vec<NodeId> = g.nodes.iter().map(|(id, _)| *id).collect();
    assert_eq!(order, vec![ids[2], ids[1], ids[3], ids[0]]);
    assert!(is_topological(&g.model, &order, &g.nodes));
}

#[test]
fn topo_sort_treats_all_inputs_and_initializers_as_given() {
    let mut g = graph(4, &[(&[0, 1, 2], &[3])]);
    g.model.inputs.push(g.values[0]);
    g.model.inputs.push(g.values[1]);
    g.model.outputs.push(g.values[3]);
    assert_eq!(g.model.topo_sort_nodes(), vec![]);
    g.model.inits.insert(g.values[2], weights(&[1]));
    assert_eq!(g.model.topo_sort_nodes(), vec![g.nodes[0].0]);
    let empty = Model::default();
    assert_eq!(empty.topo_sort_nodes(), vec![]);
}

#[test]
fn topo_sort_stops_at_model_outputs() {
    let mut g = graph(3, &[(&[0], &[1]), (&[1], &[2])]);
    g.model.inputs.push(g.values[0]);
    g.model.outputs.push(g.values[1]);
    assert_eq!(g.model.topo_sort_nodes(), vec![g.nodes[0].0]);
    g.model.outputs.clear();
    g.model.outputs.push(g.values[2]);
    assert_eq!(g.model.topo_sort_nodes(), vec![g.nodes[0].0, g.nodes[1].0]);
}

#[test]
fn topo_sort_leaves_deleted_and_unreachable_nodes_out() {
    let mut model = Model::default();
    let v: Vec<ValueId> = (0..5).map(|_| model.values.new_val()).collect();
    let a = Node::new(Op::ReLU).with_in(v[0]).with_out(v[1]).allocate(&mut model.nodes);
    let mut deleted = Node::new(Op::ReLU).with_in(v[1]).with_out(v[2]);
    deleted.deleted = true;
    let _gone = deleted.allocate(&mut model.nodes);
    let _starved = Node::new(Op::ReLU).with_in(v[2]).with_out(v[3]).allocate(&mut model.nodes);
    let b = Node::new(Op::ReLU).with_in(v[1]).with_out(v[4]).allocate(&mut model.nodes);
    let _cycle =
        Node::new(Op::Add).with_in(v[3]).with_in(v[4]).with_out(v[3]).allocate(&mut model.nodes);
    model.inputs.push(v[0]);
    model.outputs.push(v[4]);
    assert_eq!(model.topo_sort_nodes(), vec![a, b]);
}

#[test]
fn value_users_list_the_readers_of_each_value() {
    let g = graph(4, &[(&[0, 1], &[2]), (&[1, 1], &[3]), (&[2], &[3])]);
    let ids: Vec<NodeId> = g.nodes.iter().map(|(id, _)| *id).collect();
    let users = g.model.get_value_users();
    let readers = |k: usize| {
        users.get(&g.values[k]).map(|set| {
            let mut places: Vec<usize> = set.iter().map(|id| id.index).collect();
            places.sort();
            assert!(set.iter().all(|id| id.arena == ids[0].arena));
            places
        })
    };
    assert_eq!(users.len(), 3);
    assert_eq!(readers(0), Some(vec![0]));
    assert_eq!(readers(1), Some(vec![0, 1]));
    assert_eq!(readers(2), Some(vec![2]));
    assert_eq!(readers(3), None);
    assert!(Model::default().get_value_users().is_empty());
}

#[test]
fn validate_finds_dangling_values() {
    let net = mnist();
    assert_eq!(net.model.validate(), Ok(()));
    assert_eq!(Model::default().validate(), Ok(()));

    let mut other = ValueArena::default();
    let foreign = other.new_val();
    let mut g = graph(2, &[(&[0], &[1])]);
    g.model.inputs.push(g.values[0]);
    assert_eq!(g.model.validate(), Ok(()));
    g.model.inits.insert(g.values[0], weights(&[1]));
    assert_eq!(g.model.validate(), Err(SessionError::InvalidModel));
    g.model.inits.clear();
    g.model.outputs.push(foreign);
    assert_eq!(g.model.validate(), Err(SessionError::InvalidModel));
    g.model.outputs.clear();
    let beyond = ValueId { arena: g.values[0].arena, index: 2 };
    Node::new(Op::ReLU).with_in(beyond).allocate(&mut g.model.nodes);
    assert_eq!(g.model.validate(), Err(SessionError::InvalidModel));
}

#[test]
fn value_arena_hands_out_places_in_order() {
    let mut values = ValueArena::default();
    assert_eq!(values.len(), 0);
    let a = values.new_val();
    let b = values.new_val_named("b".to_string());
    let c = values.new_val_named_and_shaped(
        "c".to_string(),
        TypedShape::new(dims(&[2]), TensorElemType::I32),
    );
    assert_eq!((a.index, b.index, c.index), (0, 1, 2));
    assert_eq!(a.arena, b.arena);
    assert_eq!(values.len(), 3);
    assert_eq!(values.get(a), Some(&Value { name: None, shape: None }));
    assert_eq!(values.get(b).unwrap().name.as_deref(), Some("b"));
    assert_eq!(
        values.get(c).unwrap().shape,
        Some(TypedShape::new(dims(&[2]), TensorElemType::I32))
    );
    assert_eq!(values.get(ValueId { arena: a.arena, index: 3 }), None);
    assert_eq!(values.id_at(1), b);
    assert_eq!(values.inner().len(), 3);
    let copy = values.clone();
    assert_eq!(copy.get(b), values.get(b));
    let d = values.inner_mut().alloc(Value { name: None, shape: None });
    assert_eq!(d.index(), 3);
    assert_eq!(values.len(), 4);
    assert_eq!(copy.len(), 3);

    let mut other = ValueArena::default();
    let foreign = other.new_val();
    assert_ne!(foreign.arena, a.arena);
    assert_eq!(values.get(foreign), None);
}

#[test]
fn node_builders_collect_inputs_and_outputs() {
    let mut values = ValueArena::default();
    let v: Vec<ValueId> = (0..4).map(|_| values.new_val()).collect();
    let node = Node::new(Op::Add)
        .with_name(Some("sum".to_string()))
        .with_in(v[0])
        .with_ins(vec![v[1], v[2]])
        .with_out(v[3])
        .with_outs(vec![v[0]]);
    assert_eq!(node.op, Op::Add);
    assert_eq!(node.name.as_deref(), Some("sum"));
    assert_eq!(node.inputs, vec![v[0], v[1], v[2]]);
    assert_eq!(node.outputs, vec![v[3], v[0]]);
    assert!(!node.deleted);
    let mut model = Model::default();
    let first = Node::new(Op::ReLU).allocate(&mut model.nodes);
    let second = node.allocate(&mut model.nodes);
    assert_eq!((first.index, second.index), (0, 1));
    assert_eq!(first.arena, second.arena);
    assert_eq!(model.nodes.len(), 2);
    assert_eq!(Node::CONV2D_WEIGHT, 1);
    assert_eq!(Node::SLICE_IN_STEPS, 4);
    assert_eq!(Node::RESIZE_IN_SIZES, 3);
    assert_eq!(Node::BATCHNORM_IN_INPUT_VAR, 4);
}

#[test]
fn infer_shapes_of_mnist() {
    let net = mnist();
    let order = net.model.topo_sort_nodes();
    let shapes = infer_shapes(&net.model, &order).unwrap();
    assert_eq!(shapes[&net.output], TypedShape::new(dims(&[1, 10]), TensorElemType::F32));
    assert_eq!(shapes[&net.input], TypedShape::new(dims(&[1, 1, 28, 28]), TensorElemType::F32));
    let expected: [&[usize]; 12] = [
        &[1, 8, 28, 28],
        &[1, 8, 28, 28],
        &[1, 8, 28, 28],
        &[1, 8, 14, 14],
        &[1, 16, 14, 14],
        &[1, 16, 14, 14],
        &[1, 16, 14, 14],
        &[1, 16, 4, 4],
        &[1, 256],
        &[256, 10],
        &[1, 10],
        &[1, 10],
    ];
    let outputs = [2usize, 4, 5, 6, 8, 10, 11, 12, 14, 17, 18, 20];
    for (k, place) in outputs.iter().enumerate() {
        let id = ValueId { arena: net.input.arena, index: *place };
        assert_eq!(shapes[&id].dims, dims(expected[k]), "output of node {k}");
    }
    assert_eq!(shapes.len(), 21);
    let init = ValueId { arena: net.input.arena, index: 1 };
    assert_eq!(shapes[&init], TypedShape::new(dims(&[8, 1, 5, 5]), TensorElemType::F32));
}

#[test]
fn infer_shapes_reports_what_is_missing() {
    let mut g = graph(3, &[(&[0], &[1]), (&[1], &[2])]);
    g.model.inputs.push(g.values[0]);
    g.model.outputs.push(g.values[2]);
    let ids: Vec<NodeId> = g.nodes.iter().map(|(id, _)| *id).collect();
    assert_eq!(infer_shapes(&g.model, &ids), Err(SessionError::ShapeInference));

    let mut model = Model::default();
    let x = model.values.new_val_named_and_shaped(
        "x".to_string(),
        TypedShape::new(dims(&[2, 3]), TensorElemType::I32),
    );
    let y = model.values.new_val();
    let z = model.values.new_val();
    let a = Node::new(Op::ReLU).with_in(x).with_out(y).allocate(&mut model.nodes);
    let b = Node::new(Op::Loop).with_in(y).with_out(z).allocate(&mut model.nodes);
    model.inputs.push(x);
    model.outputs.push(z);
    let shapes = infer_shapes(&model, &[a]).unwrap();
    assert_eq!(shapes[&y], TypedShape::new(dims(&[2, 3]), TensorElemType::I32));
    assert_eq!(shapes.len(), 2);
    assert_eq!(infer_shapes(&model, &[b]), Err(SessionError::ShapeInference));
    assert_eq!(infer_shapes(&model, &[a, b]), Err(SessionError::UnsupportedOp));
    let nowhere = NodeId { arena: a.arena, index: 7 };
    assert_eq!(infer_shapes(&model, &[nowhere]), Err(SessionError::InvalidModel));
    let mut other = ValueArena::default();
    model.inputs.push(other.new_val());
    assert_eq!(infer_shapes(&model, &[a]), Err(SessionError::InvalidModel));
}

#[test]
fn plan_frees_values_after_their_last_reader() {
    let mut g = graph(5, &[(&[0], &[1]), (&[1, 0], &[2]), (&[1, 2], &[3]), (&[3, 4, 3], &[4])]);
    g.model.inputs.push(g.values[0]);
    g.model.inits.insert(g.values[4], weights(&[1]));
    g.model.outputs.push(g.values[3]);
    let ids: Vec<NodeId> = g.nodes.iter().map(|(id, _)| *id).collect();
    let plan = create_execution_plan(&g.model, &ids).unwrap();
    assert_eq!(plan.iter().map(|p| p.node_id).collect::<Vec<_>>(), ids);
    let free: Vec<Vec<ValueId>> = plan.into_iter().map(|p| p.free_vals).collect();
    let v = &g.values;
    assert_eq!(free, vec![vec![], vec![v[0]], vec![v[1], v[2]], vec![]]);
    assert!(create_execution_plan(&g.model, &[]).unwrap().is_empty());
    let nowhere = NodeId { arena: ids[0].arena, index: 4 };
    assert_eq!(
        create_execution_plan(&g.model, &[ids[0], nowhere]).err(),
        Some(SessionError::InvalidModel)
    );
    let foreign = Node::new(Op::ReLU).allocate(&mut Model::default().nodes);
    assert_eq!(
        create_execution_plan(&g.model, &[foreign]).err(),
        Some(SessionError::InvalidModel)
    );
}

#[test]
fn plan_of_mnist_frees_each_intermediate_once() {
    let net = mnist();
    let order = net.model.topo_sort_nodes();
    let plan = create_execution_plan(&net.model, &order).unwrap();
    let freed: Vec<usize> =
        plan.iter().flat_map(|p| p.free_vals.iter().map(|v| v.index)).collect();
    assert_eq!(freed, vec![0, 2, 4, 5, 6, 8, 10, 11, 12, 14, 17, 18]);
    assert!(!freed.contains(&net.output.index));
}

fn echo(call: NodeCall) -> Result<Vec<Tensor>, SessionError> {
    Ok(call.outputs)
}

#[test]
fn session_runs_mnist_to_the_inferred_shape() {
    let net = mnist();
    let session = InterpreterSessionBuilder::new(net.model)
        .with_intra_op_num_threads(2)
        .with_profiling_enabled(true)
        .build()
        .unwrap();
    assert_eq!(session.intra_op_num_threads, 2);
    assert!(session.enable_profiling);
    assert_eq!(session.execution_plans.len(), 12);
    let input = Tensor::zeros::<F32Bits>(dims(&[1, 1, 28, 28]));
    let seen = std::cell::RefCell::new(vec![]);
    let outputs = session
        .run(vec![(net.input, input)], |call: NodeCall| {
            seen.borrow_mut().push((call.node_id.index, call.inputs.len(), call.outputs.len()));
            Ok(call.outputs)
        })
        .unwrap();
    assert_eq!(outputs.len(), 1);
    assert_eq!(outputs[0].dims(), &dims(&[1, 10]));
    assert_eq!(outputs[0].elem_ty(), TensorElemType::F32);
    assert!(outputs[0].verify());
    let seen = seen.into_inner();
    assert_eq!(seen.len(), 12);
    assert_eq!(seen[0], (0, 2, 1));
    assert_eq!(seen[2], (2, 1, 1));
    assert_eq!(seen[11], (11, 2, 1));
}

#[test]
fn session_defaults() {
    let builder = InterpreterSessionBuilder::new(Model::default());
    assert_eq!(builder.intra_op_num_threads, 1);
    assert!(!builder.enable_profiling);
    let session = builder.build().unwrap();
    assert!(session.execution_plans.is_empty());
    assert_eq!(session.run(vec![], echo), Ok(vec![]));
}

#[test]
fn feed_of_wrong_type_is_refused_before_any_kernel() {
    let net = mnist();
    let session = InterpreterSessionBuilder::new(net.model).build().unwrap();
    let never = |_: NodeCall| -> Result<Vec<Tensor>, SessionError> {
        panic!("a kernel ran on a feed that does not match")
    };
    let wrong_type = Tensor::zeros::<i32>(dims(&[1, 1, 28, 28]));
    assert_eq!(session.run(vec![(net.input, wrong_type)], never), Err(SessionError::FeedMismatch));
    let wrong_shape = Tensor::zeros::<F32Bits>(dims(&[1, 1, 28, 27]));
    assert_eq!(session.run(vec![(net.input, wrong_shape)], never), Err(SessionError::FeedMismatch));
    let good = Tensor::zeros::<F32Bits>(dims(&[1, 1, 28, 28]));
    assert_eq!(
        session.run(vec![(net.output, good.clone())], never),
        Err(SessionError::FeedMismatch)
    );
    let wrong_type = Tensor::zeros::<i64>(dims(&[1, 1, 28, 28]));
    assert_eq!(session.run(vec![(net.input, wrong_type)], never), Err(SessionError::FeedMismatch));
    let no_bytes = Tensor::empty_of_type(TensorElemType::F32, dims(&[1, 1, 28, 28]));
    assert_eq!(session.run(vec![(net.input, no_bytes)], never), Err(SessionError::FeedMismatch));
    assert!(session.tensor_declared(net.input, &good));
    assert!(session.tensor_fits(net.input, &good));
    assert!(!session.tensor_declared(net.output, &good));
    assert!(!session.tensor_declared(net.input, &Tensor::zeros::<i32>(dims(&[1, 1, 28, 28]))));
}

#[test]
fn later_feed_takes_the_place_of_an_earlier_one() {
    let net = mnist();
    let session = InterpreterSessionBuilder::new(net.model).build().unwrap();
    let first = Tensor::new(dims(&[1, 1, 28, 28]), vec![F32Bits(1); 784]);
    let second = Tensor::new(dims(&[1, 1, 28, 28]), vec![F32Bits(2); 784]);
    let state = session.begin_run(vec![(net.input, first), (net.input, second.clone())]).unwrap();
    assert_eq!(state.values.len(), 1);
    assert_eq!(state.values.get(&net.input), Some(&second));
}

#[test]
fn run_of_an_empty_plan_gathers_feeds_and_initializers() {
    let mut model = Model::default();
    let x = model.values.new_val_named_and_shaped(
        "x".to_string(),
        TypedShape::new(dims(&[2]), TensorElemType::I32),
    );
    let w = model.values.new_val();
    let stored = Tensor::new(dims(&[3]), vec![7i32, 8, 9]);
    model.inits.insert(w, stored.clone());
    model.inputs.push(x);
    model.outputs.push(w);
    model.outputs.push(x);
    let session = InterpreterSessionBuilder::new(model).build().unwrap();
    assert!(session.execution_plans.is_empty());
    let fed = Tensor::new(dims(&[2]), vec![1i32, 2]);
    assert_eq!(session.run(vec![(x, fed.clone())], echo), Ok(vec![stored, fed]));
    assert_eq!(session.run(vec![], echo), Err(SessionError::InvalidModel));
}

#[test]
fn session_reports_failures_of_the_run() {
    let net = mnist();
    let session = InterpreterSessionBuilder::new(net.model).build().unwrap();
    let input = || vec![(net.input, Tensor::zeros::<F32Bits>(dims(&[1, 1, 28, 28])))];
    assert_eq!(session.run(vec![], echo), Err(SessionError::InvalidModel));
    let wrong = |_: NodeCall| Ok(vec![Tensor::zeros::<F32Bits>(dims(&[1]))]);
    assert_eq!(
        session.run(input(), wrong),
        Err(SessionError::KernelFailure("Conv2d".to_string()))
    );
    let too_many = |call: NodeCall| {
        let mut outputs = call.outputs;
        outputs.push(Tensor::zeros::<F32Bits>(dims(&[1])));
        Ok(outputs)
    };
    assert_eq!(
        session.run(input(), too_many),
        Err(SessionError::KernelFailure("Conv2d".to_string()))
    );
    let too_few = |_: NodeCall| Ok(vec![]);
    assert_eq!(
        session.run(input(), too_few),
        Err(SessionError::KernelFailure("Conv2d".to_string()))
    );
    let without_bytes = |call: NodeCall| {
        Ok(call
            .outputs
            .iter()
            .map(|t| Tensor::empty_of_type(t.elem_ty(), t.dims().clone()))
            .collect())
    };
    assert_eq!(
        session.run(input(), without_bytes),
        Err(SessionError::KernelFailure("Conv2d".to_string()))
    );
    let failing = |call: NodeCall| {
        if call.node_id.index == 3 {
            Err(SessionError::KernelFailure("MaxPool".to_string()))
        } else {
            Ok(call.outputs)
        }
    };
    assert_eq!(
        session.run(input(), failing),
        Err(SessionError::KernelFailure("MaxPool".to_string()))
    );
}

#[test]
fn session_build_fails_as_shape_inference_fails() {
    let mut g = graph(2, &[(&[0], &[1])]);
    g.model.inputs.push(g.values[0]);
    g.model.outputs.push(g.values[1]);
    assert_eq!(
        InterpreterSessionBuilder::new(g.model).build().err(),
        Some(SessionError::ShapeInference)
    );
}

#[test]
fn run_steps_bind_and_drop_values() {
    let mut model = Model::default();
    let x = model.values.new_val_named_and_shaped(
        "x".to_string(),
        TypedShape::new(dims(&[2]), TensorElemType::I32),
    );
    let y = model.values.new_val();
    let z = model.values.new_val();
    let a = Node::new(Op::ReLU).with_in(x).with_out(y).allocate(&mut model.nodes);
    let b = Node::new(Op::Add).with_in(y).with_in(y).with_out(z).allocate(&mut model.nodes);
    model.inputs.push(x);
    model.outputs.push(z);
    let session = InterpreterSessionBuilder::new(model).build().unwrap();
    let fed = Tensor::new(dims(&[2]), vec![3i32, 4]);
    let mut state = session.begin_run(vec![(x, fed.clone())]).unwrap();
    assert_eq!(state.next, 0);
    assert!(!session.is_done(&state));
    assert!(session.tensor_fits(x, &fed));
    assert!(!session.tensor_fits(x, &Tensor::zeros::<i32>(dims(&[3]))));

    let call = session.prepare_node(&state).unwrap();
    assert_eq!(call.node_id, a);
    assert_eq!(call.inputs, vec![fed.clone()]);
    assert_eq!(call.outputs.len(), 1);
    assert_eq!(call.outputs[0].dims(), &dims(&[2]));
    assert_eq!(call.outputs[0].bytes().len(), 8);
    let produced = Tensor::new(dims(&[2]), vec![5i32, 6]);
    assert_eq!(
        session.finish_node(&mut state, vec![]),
        Err(SessionError::KernelFailure("ReLU".to_string()))
    );
    assert_eq!(state.next, 0);
    assert_eq!(state.values.get(&x), Some(&fed));
    assert_eq!(session.finish_node(&mut state, vec![produced.clone()]), Ok(()));
    assert_eq!(state.next, 1);
    assert!(!state.values.contains_key(&x));
    assert_eq!(state.values.get(&y), Some(&produced));

    let call = session.prepare_node(&state).unwrap();
    assert_eq!(call.node_id, b);
    assert_eq!(call.inputs, vec![produced.clone(), produced.clone()]);
    let sum = Tensor::new(dims(&[2]), vec![10i32, 12]);
    assert_eq!(
        session.finish_node(&mut state, vec![fed.clone(), fed.clone()]),
        Err(SessionError::KernelFailure("Add".to_string()))
    );
    assert_eq!(state.next, 1);
    assert_eq!(session.collect_outputs(&state), Err(SessionError::InvalidModel));
    assert_eq!(session.finish_node(&mut state, vec![sum.clone()]), Ok(()));
    assert!(session.is_done(&state));
    assert!(!state.values.contains_key(&y));
    assert_eq!(session.collect_outputs(&state), Ok(vec![sum]));
    state.values.insert(z, Tensor::zeros::<i32>(dims(&[5])));
    assert_eq!(session.collect_outputs(&state), Err(SessionError::InvalidModel));
}

#[test]
fn one_thread_runs_inline() {
    assert!(runs_inline(1));
    assert!(!runs_inline(0));
    assert!(!runs_inline(2));
    assert!(!runs_inline(4));
}
