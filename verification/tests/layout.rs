use ndarray::{ArrayD, Axis, Dimension, IxDyn, Slice};
use neuronika::layout::{window_start, Layout};
use neuronika::node::reshape::{chunk_count, chunk_window, chunks, concatenates, stacks};
use neuronika::node::product::multiplies;
use neuronika::node::{reduce, reduces};
use neuronika::shape::{copy_of, same_dims, Shape};

fn shape(dims: &[usize]) -> Shape {
    Shape::new(dims.to_vec()).unwrap()
}

/// A row-major array of the given shape whose cell at place `p` holds `p`.
fn cells(dims: &[usize]) -> ArrayD<usize> {
    let n = dims.iter().product();
    ArrayD::from_shape_vec(IxDyn(dims), (0..n).collect()).unwrap()
}

#[test]
fn shape_new_keeps_the_lengths() {
    let s = shape(&[2, 3, 4]);
    assert_eq!(s.dims(), vec![2, 3, 4]);
    assert_eq!(s.ndim(), 3);
    assert_eq!(s.axis(1), 3);
    assert_eq!(s.len(), 24);
}

#[test]
fn shape_without_axes_has_one_cell() {
    let s = Shape::scalar();
    assert_eq!(s.ndim(), 0);
    assert_eq!(s.len(), 1);
    assert_eq!(Layout::contiguous(&s).places(), vec![0]);
}

#[test]
fn shape_with_an_empty_axis_has_no_cell() {
    let s = shape(&[3, 0, 2]);
    assert_eq!(s.len(), 0);
    assert!(Layout::contiguous(&s).places().is_empty());
}

#[test]
fn shape_new_refuses_a_product_beyond_usize() {
    assert!(Shape::new(vec![usize::MAX, 2]).is_none());
    assert!(Shape::new(vec![usize::MAX, 0, 2]).is_none());
    assert!(Shape::new(vec![usize::MAX, 1, 1]).is_some());
    assert!(Shape::new(vec![usize::MAX, 0]).is_some());
}

#[test]
fn shape_vector_has_one_axis() {
    assert_eq!(Shape::vector(5).dims(), vec![5]);
    assert_eq!(Shape::vector(0).len(), 0);
}

#[test]
fn shape_same_compares_the_lengths() {
    assert!(shape(&[2, 3]).same(&shape(&[2, 3])));
    assert!(!shape(&[2, 3]).same(&shape(&[3, 2])));
    assert!(!shape(&[2, 3]).same(&shape(&[2, 3, 1])));
    assert!(same_dims(&vec![1, 2], &copy_of(&vec![1, 2])));
    assert!(shape(&[4, 1]).duplicate().same(&shape(&[4, 1])));
}

#[test]
fn insert_axis_puts_in_a_length_of_one() {
    let s = shape(&[4, 3]);
    assert_eq!(s.insert_axis(0).dims(), vec![1, 4, 3]);
    assert_eq!(s.insert_axis(1).dims(), vec![4, 1, 3]);
    assert_eq!(s.insert_axis(2).dims(), vec![4, 3, 1]);
    assert_eq!(Shape::scalar().insert_axis(0).dims(), vec![1]);
    assert_eq!(shape(&[2, 3, 4, 5, 6]).insert_axis(5).dims(), vec![2, 3, 4, 5, 6, 1]);
    assert_eq!(shape(&[2, 3, 4, 5, 6]).insert_axis(2).dims(), vec![2, 3, 1, 4, 5, 6]);
}

#[test]
fn remove_axis_takes_the_length_out() {
    let s = shape(&[4, 3, 2]);
    assert_eq!(s.remove_axis(0).dims(), vec![3, 2]);
    assert_eq!(s.remove_axis(1).dims(), vec![4, 2]);
    assert_eq!(s.remove_axis(2).dims(), vec![4, 3]);
}

#[test]
fn with_axis_sets_one_length() {
    let s = shape(&[4, 3]);
    assert_eq!(s.with_axis(1, 7).unwrap().dims(), vec![4, 7]);
    assert!(s.with_axis(1, usize::MAX).is_none());
}

#[test]
fn transposed_reverses_the_axes() {
    assert_eq!(shape(&[2, 3, 4]).transposed().dims(), vec![4, 3, 2]);
    assert_eq!(Shape::scalar().transposed().dims(), Vec::<usize>::new());
}

#[test]
fn broadcast_follows_the_rules() {
    let joined = |a: &[usize], b: &[usize]| shape(a).broadcast(&shape(b)).map(|s| s.dims());
    assert_eq!(joined(&[3, 3], &[3]), Some(vec![3, 3]));
    assert_eq!(joined(&[3], &[3, 3]), Some(vec![3, 3]));
    assert_eq!(joined(&[1, 3], &[2, 2, 3]), Some(vec![2, 2, 3]));
    assert_eq!(joined(&[2, 1, 3], &[4, 1]), Some(vec![2, 4, 3]));
    assert_eq!(joined(&[], &[2, 3]), Some(vec![2, 3]));
    assert_eq!(joined(&[0], &[1]), Some(vec![0]));
    assert_eq!(joined(&[1], &[0]), Some(vec![0]));
    assert_eq!(joined(&[3, 3], &[2, 2, 3]), None);
    assert_eq!(joined(&[2], &[3]), None);
    assert_eq!(joined(&[0], &[3]), None);
    assert_eq!(joined(&[usize::MAX, 1], &[1, 2]), None);
}

#[test]
fn broadcast_agrees_with_ndarray() {
    let pairs: [(&[usize], &[usize]); 6] = [
        (&[3, 3], &[3]),
        (&[1, 3], &[2, 2, 3]),
        (&[2, 1, 3], &[4, 1]),
        (&[3, 3], &[2, 2, 3]),
        (&[5], &[1]),
        (&[2], &[3]),
    ];
    for (a, b) in pairs {
        match shape(a).broadcast(&shape(b)) {
            // ndarray broadcasts both arrays to the joint shape
            Some(joint) => {
                assert!(cells(a).broadcast(IxDyn(&joint.dims())).is_some());
                assert!(cells(b).broadcast(IxDyn(&joint.dims())).is_some());
            }
            // and neither to the other where there is no joint shape
            None => {
                assert!(cells(a).broadcast(IxDyn(b)).is_none());
                assert!(cells(b).broadcast(IxDyn(a)).is_none());
            }
        }
    }
}

#[test]
fn index_at_counts_in_row_major_order() {
    let s = shape(&[2, 3, 4]);
    assert_eq!(s.index_at(0), vec![0, 0, 0]);
    assert_eq!(s.index_at(1), vec![0, 0, 1]);
    assert_eq!(s.index_at(4), vec![0, 1, 0]);
    assert_eq!(s.index_at(12), vec![1, 0, 0]);
    assert_eq!(s.index_at(23), vec![1, 2, 3]);
    assert_eq!(Shape::scalar().index_at(0), Vec::<usize>::new());
}

#[test]
fn contiguous_places_each_index_at_its_rank() {
    let layout = Layout::contiguous(&shape(&[2, 3, 4]));
    assert_eq!(layout.strides(), vec![12, 4, 1]);
    assert_eq!(layout.offset(), 0);
    assert_eq!(layout.len(), 24);
    assert_eq!(layout.shape().dims(), vec![2, 3, 4]);
    assert_eq!(layout.places(), (0..24).collect::<Vec<usize>>());
    assert_eq!(layout.place(17), 17);
}

#[test]
fn contiguous_strides_agree_with_ndarray() {
    for dims in [vec![2, 3, 4], vec![5], vec![1, 1], vec![3, 1, 2], vec![2, 3, 4, 5, 6]] {
        let ours = Layout::contiguous(&shape(&dims)).strides();
        let theirs: Vec<usize> = cells(&dims).strides().iter().map(|&s| s as usize).collect();
        assert_eq!(ours, theirs);
    }
}

#[test]
fn transposed_places_agree_with_ndarray() {
    for dims in [vec![4, 3], vec![2, 3, 4], vec![5], vec![1, 7]] {
        let ours = Layout::contiguous(&shape(&dims)).transposed();
        let array = cells(&dims);
        let theirs: Vec<usize> = array.t().iter().cloned().collect();
        assert_eq!(ours.places(), theirs);
        assert_eq!(ours.shape().dims(), array.t().shape().to_vec());
    }
    // (4, 3) transposed: row 0 of the result is column 0 of the tensor
    let places = Layout::contiguous(&shape(&[4, 3])).transposed().places();
    assert_eq!(places, vec![0, 3, 6, 9, 1, 4, 7, 10, 2, 5, 8, 11]);
}

#[test]
fn transposing_twice_gives_the_layout_back() {
    let flat = Layout::contiguous(&shape(&[2, 3, 4]));
    let twice = flat.transposed().transposed();
    assert_eq!(twice.places(), flat.places());
    assert_eq!(twice.strides(), flat.strides());
    assert_eq!(twice.shape().dims(), flat.shape().dims());
}

#[test]
fn broadcast_places_agree_with_ndarray() {
    let cases: [(&[usize], &[usize]); 6] = [
        (&[3], &[3, 3]),
        (&[1, 3], &[2, 2, 3]),
        (&[3, 1], &[3, 4]),
        (&[], &[2, 2]),
        (&[1], &[5]),
        (&[2, 3], &[2, 3]),
    ];
    for (from, to) in cases {
        let ours = Layout::contiguous(&shape(from)).broadcast(&shape(to)).unwrap();
        let array = cells(from);
        let theirs: Vec<usize> = array.broadcast(IxDyn(to)).unwrap().iter().cloned().collect();
        assert_eq!(ours.places(), theirs);
    }
}

#[test]
fn broadcast_refuses_what_ndarray_refuses() {
    let cases: [(&[usize], &[usize]); 4] =
        [(&[2], &[3, 3]), (&[3, 3], &[3]), (&[2, 3], &[3, 3]), (&[3, 2], &[3, 3])];
    for (from, to) in cases {
        assert!(Layout::contiguous(&shape(from)).broadcast(&shape(to)).is_none());
        assert!(cells(from).broadcast(IxDyn(to)).is_none());
        assert!(!reduces(&shape(from), &shape(to)));
    }
}

#[test]
fn index_axis_places_agree_with_ndarray() {
    let dims = [2, 3, 4];
    let flat = Layout::contiguous(&shape(&dims));
    let array = cells(&dims);
    for axis in 0..3 {
        for at in 0..dims[axis] {
            let ours = flat.index_axis(axis, at);
            let theirs: Vec<usize> = array.index_axis(Axis(axis), at).iter().cloned().collect();
            assert_eq!(ours.places(), theirs);
        }
    }
}

#[test]
fn insert_and_drop_axis_leave_the_places() {
    let flat = Layout::contiguous(&shape(&[4, 3]));
    for axis in 0..=2 {
        let wide = flat.insert_axis(axis);
        assert_eq!(wide.places(), flat.places());
        assert_eq!(wide.shape().ndim(), 3);
        assert_eq!(wide.shape().axis(axis), 1);
        let back = wide.drop_axis(axis);
        assert_eq!(back.places(), flat.places());
        assert_eq!(back.shape().dims(), vec![4, 3]);
    }
}

#[test]
fn window_places_agree_with_ndarray() {
    let dims = [4, 5];
    let flat = Layout::contiguous(&shape(&dims));
    let array = cells(&dims);
    let ours = flat.window(&vec![1, 2], &shape(&[2, 3]));
    let theirs: Vec<usize> = array
        .slice_axis(Axis(0), Slice::from(1..3))
        .slice_axis(Axis(1), Slice::from(2..5))
        .iter()
        .cloned()
        .collect();
    assert_eq!(ours.places(), theirs);
    assert_eq!(ours.places(), vec![7, 8, 9, 12, 13, 14]);
    assert_eq!(ours.offset(), 7);
}

#[test]
fn window_start_is_zero_but_on_its_axis() {
    assert_eq!(window_start(3, 1, 5), vec![0, 5, 0]);
    assert_eq!(window_start(2, 0, 0), vec![0, 0]);
    assert_eq!(window_start(0, 0, 9), Vec::<usize>::new());
}

#[test]
fn axis_last_runs_along_the_lanes_as_ndarray_does() {
    let dims = [2, 3, 4];
    let flat = Layout::contiguous(&shape(&dims));
    let array = cells(&dims);
    for axis in 0..3 {
        let ours = flat.axis_last(axis);
        let theirs: Vec<usize> =
            array.lanes(Axis(axis)).into_iter().flat_map(|lane| lane.to_vec()).collect();
        assert_eq!(ours.places(), theirs);
        assert_eq!(ours.shape().axis(2), dims[axis]);
    }
}

#[test]
fn reduce_sends_each_index_to_the_cell_that_it_was_broadcast_from() {
    // an operand of shape (1, 3) under a gradient of shape (2, 2, 3)
    let layout = reduce(&shape(&[1, 3]), &shape(&[2, 2, 3]));
    assert_eq!(layout.len(), 3);
    assert_eq!(layout.shape().dims(), vec![2, 2, 3]);
    assert_eq!(layout.places(), vec![0, 1, 2, 0, 1, 2, 0, 1, 2, 0, 1, 2]);
    // each cell of the operand receives the four copies that were made of it
    for cell in 0..3 {
        assert_eq!(layout.places().iter().filter(|&&place| place == cell).count(), 4);
    }
}

#[test]
fn reduce_sums_as_ndarray_sums() {
    // the sum over the places of `reduce` is the sum over the axes that
    // broadcasting added
    let seed: Vec<f32> = (0..12).map(|x| x as f32).collect();
    let source = ArrayD::from_shape_vec(IxDyn(&[2, 2, 3]), seed.clone()).unwrap();
    let theirs = source.sum_axis(Axis(0)).sum_axis(Axis(0)).insert_axis(Axis(0));
    let layout = reduce(&shape(&[1, 3]), &shape(&[2, 2, 3]));
    let mut ours = vec![0f32; layout.len()];
    for (pos, place) in layout.places().into_iter().enumerate() {
        ours[place] += seed[pos];
    }
    assert_eq!(theirs.shape(), &[1, 3]);
    assert_eq!(ours, theirs.iter().cloned().collect::<Vec<f32>>());
    assert_eq!(ours, vec![18., 22., 26.]);
}

#[test]
fn reduces_tells_when_reduce_may_be_called() {
    assert!(reduces(&shape(&[3]), &shape(&[3, 3])));
    assert!(reduces(&shape(&[1, 3]), &shape(&[2, 2, 3])));
    assert!(reduces(&shape(&[]), &shape(&[2, 2])));
    assert!(reduces(&shape(&[1]), &shape(&[1])));
    assert!(!reduces(&shape(&[2]), &shape(&[3, 3])));
    assert!(!reduces(&shape(&[3, 3]), &shape(&[3])));
}

#[test]
fn chunks_of_a_tensor_agree_with_ndarray() {
    let dims = [4, 6];
    let part = [2, 3];
    let array = cells(&dims);
    assert!(chunks(&shape(&dims), &shape(&part)));
    assert_eq!(chunk_count(&shape(&dims), &shape(&part)), 4);
    for (chunk_no, theirs) in array.exact_chunks(IxDyn(&part)).into_iter().enumerate() {
        let ours = chunk_window(&shape(&dims), &shape(&part), chunk_no);
        assert_eq!(ours.places(), theirs.iter().cloned().collect::<Vec<usize>>());
    }
    let last = chunk_window(&shape(&dims), &shape(&part), 3);
    assert_eq!(last.places(), vec![15, 16, 17, 21, 22, 23]);
}

#[test]
fn chunks_share_no_cell_and_miss_none() {
    let dims = [4, 6];
    let part = [2, 3];
    let mut seen = vec![0usize; 24];
    for chunk_no in 0..chunk_count(&shape(&dims), &shape(&part)) {
        for place in chunk_window(&shape(&dims), &shape(&part), chunk_no).places() {
            seen[place] += 1;
        }
    }
    assert_eq!(seen, vec![1; 24]);
}

#[test]
fn chunks_must_divide_the_tensor() {
    assert!(chunks(&shape(&[4, 3]), &shape(&[1, 3])));
    assert!(chunks(&shape(&[4, 3]), &shape(&[4, 3])));
    assert!(!chunks(&shape(&[4, 3]), &shape(&[3, 3])));
    assert!(!chunks(&shape(&[4, 3]), &shape(&[0, 3])));
    assert!(!chunks(&shape(&[4, 3]), &shape(&[4])));
    assert!(chunks(&shape(&[0, 3]), &shape(&[2, 3])));
    assert_eq!(chunk_count(&shape(&[0, 3]), &shape(&[2, 3])), 0);
}

#[test]
fn concatenates_asks_for_agreement_off_the_axis() {
    assert!(concatenates(&shape(&[4, 3]), &shape(&[4, 2]), 1));
    assert!(concatenates(&shape(&[4, 3]), &shape(&[1, 3]), 0));
    assert!(!concatenates(&shape(&[4, 3]), &shape(&[4, 2]), 0));
    assert!(!concatenates(&shape(&[4, 3]), &shape(&[4, 2]), 2));
    assert!(!concatenates(&shape(&[4, 3]), &shape(&[4]), 0));
    assert!(!concatenates(&shape(&[usize::MAX]), &shape(&[1]), 0));
}

#[test]
fn stacks_asks_for_one_shape() {
    assert!(stacks(&shape(&[4, 3]), &shape(&[4, 3]), 0));
    assert!(stacks(&shape(&[4, 3]), &shape(&[4, 3]), 2));
    assert!(!stacks(&shape(&[4, 3]), &shape(&[4, 3]), 3));
    assert!(!stacks(&shape(&[4, 3]), &shape(&[3, 4]), 0));
    assert!(!stacks(&shape(&[usize::MAX]), &shape(&[usize::MAX]), 0));
}

#[test]
fn multiplies_asks_for_a_shared_axis() {
    assert!(multiplies(&shape(&[3, 4]), &shape(&[4, 5])));
    assert!(multiplies(&shape(&[3, 4]), &shape(&[4])));
    assert!(multiplies(&shape(&[4]), &shape(&[4, 5])));
    assert!(multiplies(&shape(&[4]), &shape(&[4])));
    assert!(!multiplies(&shape(&[3, 4]), &shape(&[5, 4])));
    assert!(!multiplies(&shape(&[3, 4, 5]), &shape(&[5])));
    assert!(!multiplies(&shape(&[]), &shape(&[1])));
    let big = 1usize << (usize::BITS / 2);
    assert!(!multiplies(&shape(&[big, 1]), &shape(&[1, big])));
}

/// All the shapes of at most three axes with lengths of at most three.
fn small_shapes() -> Vec<Vec<usize>> {
    let mut shapes = vec![vec![]];
    for a in 0..=3 {
        shapes.push(vec![a]);
        for b in 0..=3 {
            shapes.push(vec![a, b]);
            for c in 0..=3 {
                shapes.push(vec![a, b, c]);
            }
        }
    }
    shapes
}

#[test]
fn every_small_layout_agrees_with_ndarray() {
    for dims in small_shapes() {
        let flat = Layout::contiguous(&shape(&dims));
        let array = cells(&dims);
        let n: usize = dims.iter().product();
        assert_eq!(flat.places(), (0..n).collect::<Vec<usize>>());
        assert_eq!(flat.len(), n);
        assert_eq!(flat.transposed().places(), array.t().iter().cloned().collect::<Vec<usize>>());
        for axis in 0..dims.len() {
            for at in 0..dims[axis] {
                let theirs: Vec<usize> =
                    array.index_axis(Axis(axis), at).iter().cloned().collect();
                assert_eq!(flat.index_axis(axis, at).places(), theirs);
            }
            let theirs: Vec<usize> =
                array.lanes(Axis(axis)).into_iter().flat_map(|lane| lane.to_vec()).collect();
            assert_eq!(flat.axis_last(axis).places(), theirs);
        }
        for axis in 0..=dims.len() {
            let theirs = array.view().insert_axis(Axis(axis));
            let ours = flat.insert_axis(axis);
            assert_eq!(ours.shape().dims(), theirs.shape().to_vec());
            assert_eq!(ours.places(), theirs.iter().cloned().collect::<Vec<usize>>());
            assert_eq!(shape(&dims).insert_axis(axis).dims(), theirs.shape().to_vec());
        }
    }
}

#[test]
fn every_small_broadcast_agrees_with_ndarray() {
    for from in small_shapes() {
        for to in small_shapes() {
            let ours = Layout::contiguous(&shape(&from)).broadcast(&shape(&to));
            let array = cells(&from);
            let theirs = array.broadcast(IxDyn(&to));
            assert_eq!(ours.is_some(), theirs.is_some(), "{:?} to {:?}", from, to);
            assert_eq!(reduces(&shape(&from), &shape(&to)), theirs.is_some());
            if let (Some(ours), Some(theirs)) = (ours, theirs) {
                assert_eq!(ours.places(), theirs.iter().cloned().collect::<Vec<usize>>());
            }
        }
    }
}

#[test]
fn every_small_pair_broadcasts_as_ndarray_adds() {
    for a in small_shapes() {
        for b in small_shapes() {
            let ours = shape(&a).broadcast(&shape(&b)).map(|joint| joint.dims());
            // the shape that both broadcast to, found by trying the longer of the two with
            // each axis taken from either
            let n = a.len().max(b.len());
            let theirs = (0..n)
                .map(|k| {
                    let x = (k + a.len()).checked_sub(n).map(|i| a[i]);
                    let y = (k + b.len()).checked_sub(n).map(|j| b[j]);
                    match (x, y) {
                        (Some(x), Some(y)) if x == y || y == 1 => Some(x),
                        (Some(1), Some(y)) => Some(y),
                        (Some(_), Some(_)) => None,
                        (Some(x), None) => Some(x),
                        (None, y) => y,
                    }
                })
                .collect::<Option<Vec<usize>>>();
            assert_eq!(ours, theirs, "{:?} with {:?}", a, b);
            if let Some(joint) = ours {
                assert!(cells(&a).broadcast(IxDyn(&joint)).is_some());
                assert!(cells(&b).broadcast(IxDyn(&joint)).is_some());
            }
        }
    }
}

#[test]
fn every_small_chunk_agrees_with_ndarray() {
    for dims in small_shapes() {
        for part in small_shapes() {
            let fits = part.len() == dims.len()
                && part.iter().zip(&dims).all(|(&c, &d)| c > 0 && d % c == 0);
            assert_eq!(chunks(&shape(&dims), &shape(&part)), fits);
            if !fits {
                continue;
            }
            let array = cells(&dims);
            let theirs: Vec<Vec<usize>> = array
                .exact_chunks(IxDyn(&part))
                .into_iter()
                .map(|chunk| chunk.iter().cloned().collect())
                .collect();
            assert_eq!(chunk_count(&shape(&dims), &shape(&part)), theirs.len());
            for (chunk_no, theirs) in theirs.into_iter().enumerate() {
                assert_eq!(chunk_window(&shape(&dims), &shape(&part), chunk_no).places(), theirs);
            }
        }
    }
}

#[test]
fn every_small_index_is_where_ndarray_has_it() {
    for dims in small_shapes() {
        let s = shape(&dims);
        for (pos, (index, _)) in cells(&dims).indexed_iter().enumerate() {
            assert_eq!(s.index_at(pos), index.slice().to_vec());
            assert_eq!(Layout::contiguous(&s).place(pos), pos);
        }
    }
}
