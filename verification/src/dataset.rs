//! The two file formats of the handwritten-digit data set, read from bytes.
//!
//! A file of images starts with the number 2051, the number of images, the number of
//! rows and the number of columns of each, all as 32-bit numbers with the highest byte
//! first; the pixels follow, a byte each, image by image and row by row. A file of
//! labels starts with the number 2049 and the number of labels; the labels follow, a byte
//! each.

use crate::error::NetError;
use crate::full_connected::whole_root;
use crate::matrix::{lemma_cell_position, Grid, Matrix};
use crate::reshape::slice_cells;
use crate::scalar::Scalar;
use vstd::prelude::*;

verus! {

/// The number that the four bytes from `at` on make, the highest byte first.
pub open spec fn be_u32_spec(bytes: Seq<u8>, at: int) -> int {
    bytes[at] * 0x100_0000 + bytes[at + 1] * 0x1_0000 + bytes[at + 2] * 0x100 + bytes[at + 3]
}

/// The number that the four bytes from `at` on make, the highest byte first, if there
/// are four bytes.
pub fn read_be_u32(bytes: &Vec<u8>, at: usize) -> (number: Option<u32>)
    ensures
        number is Some <==> at + 4 <= bytes@.len(),
        number matches Some(n) ==> n == be_u32_spec(bytes@, at as int),
{
    if bytes.len() < 4 || at > bytes.len() - 4 {
        return None;
    }
    let high: u32 = bytes[at] as u32;
    let second: u32 = bytes[at + 1] as u32;
    let third: u32 = bytes[at + 2] as u32;
    let low: u32 = bytes[at + 3] as u32;
    Some(high * 0x100_0000 + second * 0x1_0000 + third * 0x100 + low)
}

/// The number of images in a file of images, if the bytes are such a file: they start
/// with the number 2051, the images are 28 by 28, and no pixel is missing.
pub open spec fn image_count(bytes: Seq<u8>) -> Option<nat> {
    if bytes.len() >= 16 && be_u32_spec(bytes, 0) == 2051 && be_u32_spec(bytes, 8) == 28 && be_u32_spec(bytes, 12)
        == 28 && 16 + be_u32_spec(bytes, 4) * 784 <= bytes.len() {
        Some(be_u32_spec(bytes, 4) as nat)
    } else {
        None
    }
}

/// The number of labels in a file of labels, if the bytes are such a file: they start
/// with the number 2049 and no label is missing.
pub open spec fn label_count(bytes: Seq<u8>) -> Option<nat> {
    if bytes.len() >= 8 && be_u32_spec(bytes, 0) == 2049 && 8 + be_u32_spec(bytes, 4) <= bytes.len() {
        Some(be_u32_spec(bytes, 4) as nat)
    } else {
        None
    }
}

/// A pixel as a number between zero and one: the byte over 255.
pub open spec fn pixel_spec<T: Scalar>(byte: u8) -> T {
    T::count_spec(byte as usize).over_spec(T::count_spec(255))
}

/// The pixels of all images of a file, each as a number between zero and one.
pub open spec fn pixels_spec<T: Scalar>(bytes: Seq<u8>) -> Seq<T> {
    Seq::new(image_count(bytes)->0 * 784, |k: int| pixel_spec(bytes[16 + k]))
}

/// The labels of a file, each as a number.
pub open spec fn labels_spec<T: Scalar>(bytes: Seq<u8>) -> Seq<T> {
    Seq::new(label_count(bytes)->0, |k: int| T::count_spec(bytes[8 + k] as usize))
}

/// The labels of a file, each as a byte.
pub open spec fn label_bytes_spec(bytes: Seq<u8>) -> Seq<u8> {
    bytes.subrange(8, 8 + label_count(bytes)->0 as int)
}

/// The matrix with a row for each label and a column for each class, with one in the
/// column of the label and zero in the others.
pub open spec fn one_hot_spec<T: Scalar>(labels: Seq<u8>, classes: nat) -> Grid<T> {
    Grid {
        rows: labels.len(),
        cols: classes,
        cells: Seq::new(
            labels.len() * classes,
            |k: int|
                if labels[k / classes as int] == k % classes as int {
                    T::one_spec()
                } else {
                    T::zero_spec()
                },
        ),
    }
}

/// Every row of the matrix as a sample of one square channel.
pub open spec fn matrix_to_tensor_spec<T>(x: Grid<T>, side: nat) -> Seq<Seq<Grid<T>>> {
    Seq::new(
        x.rows,
        |s: int| seq![Grid { rows: side, cols: side, cells: x.cells.subrange(s * x.cols, s * x.cols + x.cols) }],
    )
}

/// The two files hold one half of the data set: a file of images and a file of labels,
/// every label below ten, and no more labels than ten columns each can be counted on
/// this machine.
pub open spec fn half_readable(images: Seq<u8>, labels: Seq<u8>) -> bool {
    &&& image_count(images) is Some
    &&& label_count(labels) is Some
    &&& forall|i: int| 0 <= i < label_bytes_spec(labels).len() ==> label_bytes_spec(labels)[i] < 10
    &&& label_bytes_spec(labels).len() * 10 <= usize::MAX
}

/// The number of images, if the bytes are a file of images.
pub fn count_images(bytes: &Vec<u8>) -> (count: Option<usize>)
    ensures
        count is Some <==> image_count(bytes@) is Some,
        count matches Some(n) ==> Some(n as nat) == image_count(bytes@),
{
    let magic: Option<u32> = read_be_u32(bytes, 0);
    let images: Option<u32> = read_be_u32(bytes, 4);
    let rows: Option<u32> = read_be_u32(bytes, 8);
    let cols: Option<u32> = read_be_u32(bytes, 12);
    match (magic, images, rows, cols) {
        (Some(magic), Some(images), Some(rows), Some(cols)) => {
            if magic != 2051 || rows != 28 || cols != 28 {
                return None;
            }
            let needed: u128 = 16 + (images as u128) * 784;
            if needed > bytes.len() as u128 {
                return None;
            }
            Some(images as usize)
        },
        _ => None,
    }
}

/// The number of labels, if the bytes are a file of labels.
pub fn count_labels(bytes: &Vec<u8>) -> (count: Option<usize>)
    ensures
        count is Some <==> label_count(bytes@) is Some,
        count matches Some(n) ==> Some(n as nat) == label_count(bytes@),
{
    let magic: Option<u32> = read_be_u32(bytes, 0);
    let labels: Option<u32> = read_be_u32(bytes, 4);
    match (magic, labels) {
        (Some(magic), Some(labels)) => {
            if magic != 2049 {
                return None;
            }
            let needed: u128 = 8 + (labels as u128);
            if needed > bytes.len() as u128 {
                return None;
            }
            Some(labels as usize)
        },
        _ => None,
    }
}

/// The pixels of all images of a file of images, each as a number between zero and one,
/// and the number of images.
pub fn load_images<T: Scalar>(bytes: &Vec<u8>) -> (loaded: Result<(Vec<T>, usize), NetError>)
    ensures
        loaded is Ok <==> image_count(bytes@) is Some,
        loaded matches Ok(images) ==> images.0@ == pixels_spec::<T>(bytes@) && Some(images.1 as nat) == image_count(
            bytes@,
        ),
        loaded matches Err(e) ==> e == NetError::Format,
{
    let num_image: usize = match count_images(bytes) {
        Some(count) => count,
        None => {
            return Err(NetError::Format);
        },
    };
    let held: usize = bytes.len();
    let total: usize = num_image * 784;
    let full: T = T::count(255);
    let mut ret: Vec<T> = Vec::new();
    let mut k: usize = 0;
    while k < total
        invariant
            16 + total <= bytes@.len(),
            bytes@.len() <= usize::MAX,
            full == T::count_spec(255),
            k <= total,
            ret@.len() == k,
            forall|i: int| 0 <= i < k ==> ret@[i] == pixel_spec::<T>(bytes@[16 + i]),
        decreases total - k,
    {
        let byte: u8 = bytes[16 + k];
        ret.push(T::count(byte as usize).over(full));
        k = k + 1;
    }
    assert(ret@ =~= pixels_spec::<T>(bytes@));
    Ok((ret, num_image))
}

/// The labels of a file of labels, each as a byte.
pub fn label_bytes(bytes: &Vec<u8>) -> (loaded: Result<Vec<u8>, NetError>)
    ensures
        loaded is Ok <==> label_count(bytes@) is Some,
        loaded matches Ok(labels) ==> labels@ == label_bytes_spec(bytes@),
        loaded matches Err(e) ==> e == NetError::Format,
{
    let num_label: usize = match count_labels(bytes) {
        Some(count) => count,
        None => {
            return Err(NetError::Format);
        },
    };
    let held: usize = bytes.len();
    let mut ret: Vec<u8> = Vec::new();
    let mut k: usize = 0;
    while k < num_label
        invariant
            8 + num_label <= bytes@.len(),
            bytes@.len() <= usize::MAX,
            k <= num_label,
            ret@.len() == k,
            forall|i: int| 0 <= i < k ==> ret@[i] == bytes@[8 + i],
        decreases num_label - k,
    {
        ret.push(bytes[8 + k]);
        k = k + 1;
    }
    assert(ret@ =~= label_bytes_spec(bytes@));
    Ok(ret)
}

/// The labels of a file of labels, each as a number, and the number of labels.
pub fn load_labels<T: Scalar>(bytes: &Vec<u8>) -> (loaded: Result<(Vec<T>, usize), NetError>)
    ensures
        loaded is Ok <==> label_count(bytes@) is Some,
        loaded matches Ok(labels) ==> labels.0@ == labels_spec::<T>(bytes@) && Some(labels.1 as nat) == label_count(
            bytes@,
        ),
        loaded matches Err(e) ==> e == NetError::Format,
{
    let num_label: usize = match count_labels(bytes) {
        Some(count) => count,
        None => {
            return Err(NetError::Format);
        },
    };
    let held: usize = bytes.len();
    let mut ret: Vec<T> = Vec::new();
    let mut k: usize = 0;
    while k < num_label
        invariant
            8 + num_label <= bytes@.len(),
            bytes@.len() <= usize::MAX,
            k <= num_label,
            ret@.len() == k,
            forall|i: int| 0 <= i < k ==> ret@[i] == T::count_spec(bytes@[8 + i] as usize),
        decreases num_label - k,
    {
        let byte: u8 = bytes[8 + k];
        ret.push(T::count(byte as usize));
        k = k + 1;
    }
    assert(ret@ =~= labels_spec::<T>(bytes@));
    Ok((ret, num_label))
}

/// The matrix with a row for each label and a column for each class, with one in the
/// column of the label and zero in the others, if every label is below the number of
/// classes and the matrix is not too large for this machine.
pub fn one_hot<T: Scalar>(labels: &Vec<u8>, classes: usize) -> (coded: Result<Matrix<T>, NetError>)
    ensures
        coded is Ok <==> (forall|i: int| 0 <= i < labels@.len() ==> labels@[i] < classes) && labels@.len() * classes
            <= usize::MAX,
        coded matches Ok(m) ==> m@ == one_hot_spec::<T>(labels@, classes as nat),
        coded matches Err(e) ==> e == NetError::Format,
{
    let rows: usize = labels.len();
    let mut r: usize = 0;
    while r < rows
        invariant
            rows == labels@.len(),
            r <= rows,
            forall|i: int| 0 <= i < r ==> labels@[i] < classes,
        decreases rows - r,
    {
        if labels[r] as usize >= classes {
            return Err(NetError::Format);
        }
        r = r + 1;
    }
    let total: usize = match rows.checked_mul(classes) {
        Some(total) => total,
        None => {
            return Err(NetError::Format);
        },
    };
    let zero: T = T::zero();
    let one: T = T::one();
    let mut data: Vec<T> = Vec::new();
    let mut k: usize = 0;
    while k < total
        invariant
            rows == labels@.len(),
            total == rows * classes,
            zero == T::zero_spec(),
            one == T::one_spec(),
            k <= total,
            data@.len() == k,
            forall|i: int|
                0 <= i < k ==> data@[i] == if labels@[i / classes as int] == i % classes as int {
                    T::one_spec()
                } else {
                    T::zero_spec()
                },
        decreases total - k,
    {
        proof {
            lemma_cell_position(rows as int, classes as int, k as int);
        }
        if labels[k / classes] as usize == k % classes {
            data.push(one);
        } else {
            data.push(zero);
        }
        k = k + 1;
    }
    assert(data@ =~= one_hot_spec::<T>(labels@, classes as nat).cells);
    Ok(Matrix::from_cells(rows, classes, data))
}

/// Every row of the matrix as a sample of one square channel, if the cells of a row
/// make a square.
pub fn matrix_to_tensor<T: Copy>(x: &Matrix<T>) -> (tensor: Result<Vec<Vec<Matrix<T>>>, NetError>)
    ensures
        tensor is Ok <==> exists|side: nat| x@.cols == #[trigger] (side * side),
        tensor matches Ok(batch) ==> exists|side: nat|
            x@.cols == #[trigger] (side * side) && batch.deep_view() == matrix_to_tensor_spec(x@, side),
        tensor matches Err(e) ==> e == NetError::Format,
{
    let rows: usize = x.rows();
    let cols: usize = x.cols();
    let held: usize = x.len();
    let side: usize = whole_root(cols);
    if side * side != cols {
        proof {
            if exists|other: nat| x@.cols == #[trigger] (other * other) {
                let other = choose|other: nat| x@.cols == #[trigger] (other * other);
                assert(other == side) by (nonlinear_arith)
                    requires
                        side * side <= other * other < (side + 1) * (side + 1),
                        other >= 0,
                        side >= 0,
                ;
            }
        }
        return Err(NetError::Format);
    }
    let mut batch: Vec<Vec<Matrix<T>>> = Vec::new();
    let mut s: usize = 0;
    while s < rows
        invariant
            rows == x@.rows,
            cols == x@.cols,
            x@.wf(),
            x@.cells.len() <= usize::MAX,
            side * side == cols,
            s <= rows,
            batch@.len() == s,
            forall|j: int| 0 <= j < s ==> (#[trigger] batch@[j]).deep_view() == matrix_to_tensor_spec(x@, side as nat)[j],
        decreases rows - s,
    {
        proof {
            assert((s + 1) * cols <= rows * cols) by (nonlinear_arith)
                requires
                    s + 1 <= rows,
                    cols >= 0,
            ;
            assert((s + 1) * cols == s * cols + cols) by (nonlinear_arith);
            assert(0 <= s * cols) by (nonlinear_arith)
                requires
                    0 <= s,
                    0 <= cols,
            ;
        }
        let mut sample: Vec<Matrix<T>> = Vec::new();
        sample.push(slice_cells(x, s * cols, side, side));
        assert(sample.deep_view() =~= matrix_to_tensor_spec(x@, side as nat)[s as int]);
        batch.push(sample);
        s = s + 1;
    }
    assert(batch.deep_view() =~= matrix_to_tensor_spec(x@, side as nat));
    assert(x@.cols == (side as nat) * (side as nat));
    Ok(batch)
}

/// One half of the data set: the images as a batch of samples of one channel of 28 by
/// 28 cells, and the labels as a matrix with a row for each label and ten columns.
pub fn load_half<T: Scalar>(images: &Vec<u8>, labels: &Vec<u8>) -> (loaded: Result<
    (Vec<Vec<Matrix<T>>>, Matrix<T>),
    NetError,
>)
    ensures
        loaded is Ok <==> half_readable(images@, labels@),
        loaded matches Ok(half) ==> half.0.deep_view() == matrix_to_tensor_spec(
            Grid { rows: image_count(images@)->0, cols: 784, cells: pixels_spec::<T>(images@) },
            28,
        ) && half.1@ == one_hot_spec::<T>(label_bytes_spec(labels@), 10),
        loaded matches Err(e) ==> e == NetError::Format,
{
    let (pixels, num_image) = match load_images::<T>(images) {
        Ok(loaded) => loaded,
        Err(e) => {
            return Err(NetError::Format);
        },
    };
    let marks: Vec<u8> = match label_bytes(labels) {
        Ok(loaded) => loaded,
        Err(e) => {
            return Err(NetError::Format);
        },
    };
    let x: Matrix<T> = Matrix::from_cells(num_image, 784, pixels);
    let y: Matrix<T> = match one_hot::<T>(&marks, 10) {
        Ok(coded) => coded,
        Err(e) => {
            return Err(NetError::Format);
        },
    };
    let tensor: Vec<Vec<Matrix<T>>> = match matrix_to_tensor(&x) {
        Ok(tensor) => tensor,
        Err(e) => {
            assert(x@.cols == #[trigger] (28nat * 28nat));
            return Err(NetError::Format);
        },
    };
    proof {
        let side = choose|side: nat|
            x@.cols == #[trigger] (side * side) && tensor.deep_view() == matrix_to_tensor_spec(x@, side);
        assert(side == 28) by (nonlinear_arith)
            requires
                side * side == 784,
                side >= 0,
        ;
    }
    Ok((tensor, y))
}

/// The data set from the contents of its four files: the images and the labels to train
/// on, then the images and the labels to test on.
pub fn load_mnist<T: Scalar>(files: &Vec<Vec<u8>>) -> (loaded: Result<
    ((Vec<Vec<Matrix<T>>>, Matrix<T>), (Vec<Vec<Matrix<T>>>, Matrix<T>)),
    NetError,
>)
    ensures
        loaded is Ok <==> files@.len() >= 4 && half_readable(files@[0]@, files@[1]@) && half_readable(
            files@[2]@,
            files@[3]@,
        ),
        loaded matches Ok(data) ==> data.0.0.deep_view() == matrix_to_tensor_spec(
            Grid { rows: image_count(files@[0]@)->0, cols: 784, cells: pixels_spec::<T>(files@[0]@) },
            28,
        ) && data.0.1@ == one_hot_spec::<T>(label_bytes_spec(files@[1]@), 10) && data.1.0.deep_view()
            == matrix_to_tensor_spec(
            Grid { rows: image_count(files@[2]@)->0, cols: 784, cells: pixels_spec::<T>(files@[2]@) },
            28,
        ) && data.1.1@ == one_hot_spec::<T>(label_bytes_spec(files@[3]@), 10),
        loaded matches Err(e) ==> e == NetError::Format,
{
    if files.len() < 4 {
        return Err(NetError::Format);
    }
    let train = match load_half::<T>(&files[0], &files[1]) {
        Ok(half) => half,
        Err(e) => {
            return Err(NetError::Format);
        },
    };
    let test = match load_half::<T>(&files[2], &files[3]) {
        Ok(half) => half,
        Err(e) => {
            return Err(NetError::Format);
        },
    };
    Ok((train, test))
}

} // verus!
