use convnet::activation::Activation;
use convnet::convolution::{Conv2D, Conv3D};
use convnet::dataset::{
    count_images, count_labels, label_bytes, load_images, load_labels, load_mnist, matrix_to_tensor, one_hot,
    read_be_u32,
};
use convnet::error::NetError;
use convnet::full_connected::FullLayer;
use convnet::matrix::Matrix;
use convnet::network::nn;
use convnet::pooling::Pool;
use convnet::trained::{
    ActivationJson, Conv2DJson, Conv3DJson, Convert, FullJson, LayerJson, NetworkGraph, PoolJson,
};

fn matrix(rows: usize, cols: usize, cells: Vec<i64>) -> Matrix<i64> {
    Matrix::from_shape_vec(rows, cols, cells).unwrap()
}

fn cells(m: &Matrix<i64>) -> Vec<i64> {
    m.copied().into_vec()
}

fn filters() -> Vec<Vec<Matrix<i64>>> {
    vec![
        vec![matrix(3, 3, vec![1, 0, -1, 0, 1, 0, 2, 0, 1]), matrix(3, 3, vec![0, 1, 0, 1, -1, 1, 0, 1, 0])],
        vec![matrix(3, 3, vec![1, 1, 1, 0, 0, 0, -1, -1, -1]), matrix(3, 3, vec![2, 0, 0, 0, 2, 0, 0, 0, 2])],
    ]
}

fn inputs() -> Vec<Vec<Matrix<i64>>> {
    vec![vec![matrix(3, 3, vec![1, 2, 3, 4, 5, 6, 7, 8, 9]), matrix(3, 3, vec![1, 0, 1, 0, 1, 0, 1, 0, 1])]]
}

fn trained_layer() -> Conv3D<i64> {
    let mut layer = Conv3D::new(2, 2, 1, 1, 3, 3, 1i64, 0, &filters()).unwrap();
    let deltas = vec![vec![matrix(3, 3, vec![3, 0, 0, 0, 3, 0, 0, 0, 3]), matrix(3, 3, vec![1, 1, 1, 0, 0, 0, 0, 0, 6])]];
    layer.backward(&deltas, &inputs()).unwrap();
    layer
}

#[test]
fn a_stored_convolution_unit_reads_back_as_it_was() {
    let unit = Conv2D::assemble(4, 3, 0, 1, 7i64, matrix(3, 3, (1..=9).collect()), matrix(2, 1, vec![5, 6])).unwrap();
    let input = matrix(4, 4, (1..=16).collect());
    let before = cells(&unit.forward(&input));
    let stored = Conv2DJson::new(unit);
    assert_eq!((stored.prev, stored.filter_width, stored.stride, stored.padding, stored.alpha), (4, 3, 1, 0, 7));
    assert_eq!(stored.filter, (1..=9).collect::<Vec<i64>>());
    assert_eq!(stored.bias, vec![5, 6]);
    let read = stored.to_layer().unwrap();
    assert_eq!(cells(&read.forward(&input)), before);
    assert_eq!(cells(read.transposed_filter()), vec![9, 8, 7, 6, 5, 4, 3, 2, 1]);
}

#[test]
fn a_stored_convolution_layer_reads_back_as_it_was() {
    let before: Vec<Vec<i64>> = trained_layer().forward(&inputs()).unwrap()[0].iter().map(cells).collect();
    let stored = Conv3DJson::new(trained_layer());
    assert_eq!((stored.in_channel, stored.out_channel, stored.output_width, stored.boundary), (2, 2, 3, 0));
    assert_eq!(stored.conv2d.len(), 2);
    assert_eq!(stored.conv2d[1].len(), 2);
    assert_eq!(stored.conv2d[0][0].filter, cells(trained_layer().unit(0, 0).filter()));
    let read = stored.to_layer().unwrap();
    let after: Vec<Vec<i64>> = read.forward(&inputs()).unwrap()[0].iter().map(cells).collect();
    assert_eq!(after, before);
    assert_eq!(cells(read.unit(1, 0).bias()), cells(trained_layer().unit(1, 0).bias()));
    assert_eq!(cells(read.unit(1, 0).transposed_filter()), cells(trained_layer().unit(1, 0).transposed_filter()));
}

#[test]
fn a_stored_dense_layer_reads_back_as_it_was() {
    let layer =
        FullLayer::assemble(2, 3, 2i64, 0, matrix(2, 3, vec![1, 2, 3, 0, -1, 1]), matrix(2, 1, vec![10, 20])).unwrap();
    let input = vec![vec![matrix(1, 3, vec![1, 0, 2])], vec![matrix(1, 3, vec![3, 1, 0])]];
    let before = cells(&layer.forward(&input).unwrap()[0][0]);
    let stored = FullJson::new(layer);
    assert_eq!(stored.weights, vec![1, 2, 3, 0, -1, 1]);
    assert_eq!(stored.bias, vec![10, 20]);
    let read = stored.to_layer().unwrap();
    assert_eq!(cells(&read.forward(&input).unwrap()[0][0]), before);
    assert_eq!(before, vec![17, 15, 22, 19]);
}

#[test]
fn stored_layers_without_parameters_read_back() {
    let pool = PoolJson::new(Pool::new(4, 2, 0, 3, 28, 1).unwrap());
    assert_eq!((pool.width, pool.stride, pool.padding, pool.out_channel, pool.input_width, pool.boundary), (4, 2, 0, 3, 28, 1));
    let read = pool.to_layer().unwrap();
    assert_eq!((read.width(), read.input_width(), read.boundary()), (4, 28, 1));
    let activation = ActivationJson::new(Activation::new(1));
    assert_eq!(activation.end, 1);
    assert_eq!(activation.to_layer().unwrap().end, 1);
}

#[test]
fn a_stored_layer_of_any_kind_reads_back() {
    let stored = LayerJson::new(nn::Conv(trained_layer()));
    assert!(matches!(stored, LayerJson::Conv(_)));
    let read = stored.to_layer().unwrap();
    match read {
        nn::Conv(layer) => assert_eq!(cells(layer.unit(0, 1).filter()), cells(trained_layer().unit(0, 1).filter())),
        _ => panic!("a convolution layer was stored"),
    }
    let pool: LayerJson<i64> = LayerJson::new(nn::Pool(Pool::new(2, 2, 0, 1, 4, 0).unwrap()));
    assert!(matches!(pool.to_layer(), Ok(nn::Pool(_))));
    let dense = LayerJson::new(nn::Full(FullLayer::new(1, 2, 1i64, 0, matrix(1, 2, vec![3, 4])).unwrap()));
    assert!(matches!(dense.to_layer(), Ok(nn::Full(_))));
    let end: LayerJson<i64> = LayerJson::new(nn::Activation(Activation::new(0)));
    assert!(matches!(end.to_layer(), Ok(nn::Activation(_))));
}

#[test]
fn malformed_stored_layers_are_refused() {
    let short = Conv2DJson { prev: 4, filter_width: 3, filter: vec![1i64; 8], bias: vec![0; 2], stride: 1, padding: 0, alpha: 1 };
    assert_eq!(short.to_layer().err(), Some(NetError::Serialization));
    let bias = Conv2DJson { prev: 4, filter_width: 3, filter: vec![1i64; 9], bias: vec![0; 3], stride: 1, padding: 0, alpha: 1 };
    assert_eq!(bias.to_layer().err(), Some(NetError::Serialization));
    let geometry = Conv2DJson { prev: 8, filter_width: 3, filter: vec![1i64; 9], bias: vec![0; 3], stride: 2, padding: 0, alpha: 1 };
    assert_eq!(geometry.to_layer().err(), Some(NetError::Serialization));
    let mut layer = Conv3DJson::new(trained_layer());
    layer.output_width = 4;
    assert_eq!(layer.to_layer().err(), Some(NetError::Serialization));
    let mut layer = Conv3DJson::new(trained_layer());
    layer.conv2d[1].pop();
    assert_eq!(layer.to_layer().err(), Some(NetError::Serialization));
    let mut layer = Conv3DJson::new(trained_layer());
    layer.conv2d[0][1].stride = 3;
    assert_eq!(layer.to_layer().err(), Some(NetError::Serialization));
    let dense = FullJson { neurons: 2, prev_neurons: 3, alpha: 1i64, boundary: 0, weights: vec![0; 5], bias: vec![0; 2] };
    assert_eq!(dense.to_layer().err(), Some(NetError::Serialization));
    let squares = FullJson { neurons: 1, prev_neurons: 6, alpha: 1i64, boundary: 2, weights: vec![0; 6], bias: vec![0; 1] };
    assert_eq!(squares.to_layer().err(), Some(NetError::Serialization));
    let pool = PoolJson { width: 3, stride: 2, padding: 0, boundary: 0, out_channel: 1, input_width: 28 };
    assert_eq!(pool.to_layer().err(), Some(NetError::Serialization));
}

fn stored_network() -> NetworkGraph<i64> {
    let conv1 = Conv3D::new(1, 2, 1, 1, 8, 3, 1i64, 0, &vec![vec![Matrix::filled(3, 3, 1i64)], vec![Matrix::filled(3, 3, 2i64)]]).unwrap();
    let conv2 = Conv3D::new(
        2,
        1,
        1,
        1,
        4,
        3,
        1i64,
        0,
        &vec![vec![Matrix::filled(3, 3, 1i64), Matrix::filled(3, 3, 3i64)]],
    )
    .unwrap();
    NetworkGraph {
        conv1: Conv3DJson::new(conv1),
        activation1: ActivationJson { end: 0 },
        pool1: PoolJson { width: 2, stride: 2, padding: 0, boundary: 0, out_channel: 2, input_width: 8 },
        conv2: Conv3DJson::new(conv2),
        activation2: ActivationJson { end: 0 },
        pool2: PoolJson { width: 2, stride: 2, padding: 0, boundary: 1, out_channel: 1, input_width: 4 },
        full1: FullJson::new(FullLayer::new(3, 4, 1i64, 1, Matrix::filled(3, 4, 1i64)).unwrap()),
        activation3: ActivationJson { end: 0 },
        full2: FullJson::new(FullLayer::new(2, 3, 1i64, 0, Matrix::filled(2, 3, 1i64)).unwrap()),
        activation: ActivationJson { end: 1 },
    }
}

#[test]
fn a_stored_network_reads_back_layer_by_layer() {
    let network = stored_network().to_layer().unwrap();
    assert_eq!(network.len(), 10);
    assert!(matches!(network[0], nn::Conv(_)));
    assert!(matches!(network[1], nn::Activation(_)));
    assert!(matches!(network[2], nn::Pool(_)));
    assert!(matches!(network[3], nn::Conv(_)));
    assert!(matches!(network[5], nn::Pool(_)));
    assert!(matches!(network[6], nn::Full(_)));
    assert!(matches!(network[8], nn::Full(_)));
    match &network[9] {
        nn::Activation(layer) => assert_eq!(layer.end, 1),
        _ => panic!("the last layer is an activation layer"),
    }
    let mut broken = stored_network();
    broken.pool1.stride = 4;
    assert_eq!(broken.to_layer().err(), Some(NetError::Serialization));
    let mut broken = stored_network();
    broken.full2.weights.pop();
    assert_eq!(broken.to_layer().err(), Some(NetError::Serialization));
}

fn images_file(count: u32, rows: u32, cols: u32, pixels: usize) -> Vec<u8> {
    let mut bytes = Vec::new();
    bytes.extend(2051u32.to_be_bytes());
    bytes.extend(count.to_be_bytes());
    bytes.extend(rows.to_be_bytes());
    bytes.extend(cols.to_be_bytes());
    for k in 0..pixels {
        bytes.push((k % 256) as u8);
    }
    bytes
}

fn labels_file(labels: &[u8]) -> Vec<u8> {
    let mut bytes = Vec::new();
    bytes.extend(2049u32.to_be_bytes());
    bytes.extend((labels.len() as u32).to_be_bytes());
    bytes.extend(labels);
    bytes
}

#[test]
fn numbers_are_read_with_the_highest_byte_first() {
    let bytes = vec![0x00, 0x00, 0x08, 0x03, 0x12, 0x34, 0x56, 0x78, 0xff];
    assert_eq!(read_be_u32(&bytes, 0), Some(2051));
    assert_eq!(read_be_u32(&bytes, 4), Some(0x12345678));
    assert_eq!(read_be_u32(&bytes, 5), Some(0x345678ff));
    assert_eq!(read_be_u32(&bytes, 6), None);
    assert_eq!(read_be_u32(&bytes, usize::MAX), None);
    assert_eq!(read_be_u32(&vec![0xff, 0xff, 0xff, 0xff], 0), Some(u32::MAX));
}

#[test]
fn images_are_read_as_numbers_between_zero_and_one() {
    let bytes = images_file(2, 28, 28, 2 * 784);
    assert_eq!(count_images(&bytes), Some(2));
    let (pixels, count) = load_images::<i64>(&bytes).unwrap();
    assert_eq!(count, 2);
    assert_eq!(pixels.len(), 1568);
    // integers divide towards zero: only the byte 255 gives one
    assert_eq!(pixels[254], 0);
    assert_eq!(pixels[255], 1);
    assert_eq!(pixels[256], 0);
}

#[test]
fn malformed_image_files_are_refused() {
    let mut magic = images_file(1, 28, 28, 784);
    magic[3] = 1;
    assert_eq!(load_images::<i64>(&magic).err(), Some(NetError::Format));
    assert_eq!(load_images::<i64>(&images_file(1, 27, 28, 784)).err(), Some(NetError::Format));
    assert_eq!(load_images::<i64>(&images_file(1, 28, 29, 784 + 28)).err(), Some(NetError::Format));
    assert_eq!(load_images::<i64>(&images_file(2, 28, 28, 784)).err(), Some(NetError::Format));
    assert_eq!(load_images::<i64>(&vec![0, 0, 8, 3]).err(), Some(NetError::Format));
    assert_eq!(count_images(&Vec::new()), None);
    assert!(load_images::<i64>(&images_file(0, 28, 28, 0)).unwrap().0.is_empty());
}

#[test]
fn labels_are_read_and_coded() {
    let bytes = labels_file(&[3, 0, 9]);
    assert_eq!(count_labels(&bytes), Some(3));
    assert_eq!(label_bytes(&bytes), Ok(vec![3, 0, 9]));
    assert_eq!(load_labels::<i64>(&bytes), Ok((vec![3, 0, 9], 3)));
    let coded = one_hot::<i64>(&vec![3, 0, 9], 10).unwrap();
    assert_eq!((coded.rows(), coded.cols()), (3, 10));
    let mut expected = vec![0i64; 30];
    expected[3] = 1;
    expected[10] = 1;
    expected[29] = 1;
    assert_eq!(cells(&coded), expected);
    assert_eq!(one_hot::<i64>(&vec![3, 10], 10).err(), Some(NetError::Format));
    let mut magic = labels_file(&[1, 2]);
    magic[3] = 3;
    assert_eq!(label_bytes(&magic).err(), Some(NetError::Format));
    let mut short = labels_file(&[1, 2]);
    short.pop();
    assert_eq!(load_labels::<i64>(&short).err(), Some(NetError::Format));
}

#[test]
fn rows_become_samples_of_one_square_channel() {
    let x = matrix(2, 4, vec![1, 2, 3, 4, 5, 6, 7, 8]);
    let tensor = matrix_to_tensor(&x).unwrap();
    assert_eq!(tensor.len(), 2);
    assert_eq!(tensor[1].len(), 1);
    assert_eq!((tensor[1][0].rows(), tensor[1][0].cols()), (2, 2));
    assert_eq!(cells(&tensor[1][0]), vec![5, 6, 7, 8]);
    assert_eq!(matrix_to_tensor(&matrix(1, 3, vec![1, 2, 3])).err(), Some(NetError::Format));
}

#[test]
fn the_data_set_is_read_from_its_four_files() {
    let files = vec![
        images_file(3, 28, 28, 3 * 784),
        labels_file(&[1, 2, 3]),
        images_file(1, 28, 28, 784),
        labels_file(&[7]),
    ];
    let ((train_x, train_y), (test_x, test_y)) = load_mnist::<i64>(&files).unwrap();
    assert_eq!(train_x.len(), 3);
    assert_eq!((train_x[0][0].rows(), train_x[0][0].cols()), (28, 28));
    assert_eq!((train_y.rows(), train_y.cols()), (3, 10));
    assert_eq!(train_y.get(1, 2), 1);
    assert_eq!(train_y.get(1, 3), 0);
    assert_eq!(test_x.len(), 1);
    assert_eq!(test_y.get(0, 7), 1);
    // pixel number 255 of the first image is the byte 255
    assert_eq!(train_x[0][0].get(9, 3), 1);
    assert_eq!(load_mnist::<i64>(&files[..3].to_vec()).err(), Some(NetError::Format));
    let mut swapped = files.clone();
    swapped.swap(0, 1);
    assert_eq!(load_mnist::<i64>(&swapped).err(), Some(NetError::Format));
}

#[test]
fn errors_describe_themselves() {
    assert_eq!(NetError::ShapeMismatch.to_string(), "shape mismatch");
    assert_eq!(NetError::Format.to_string(), "malformed data set");
    assert_eq!(NetError::Serialization.to_string(), "malformed stored layer");
}
