//! The data set of handwritten digits: pictures of 28 by 28 gray values
//! behind a header of 16 bytes, and their labels behind a header of 8.
use vstd::prelude::*;
use crate::error::Error;
use crate::imaging::{
    is_from_byte, is_image_of, Levels, MnistImage, NeuralNetworkImage, Numeric,
};
use crate::neuralnetwork::NeuralNetwork;
use crate::scalar::{is_one, is_sum, is_zero, Scalar};
use crate::training::{is_training, TrainingData, TrainingEntry};

verus! {

/// The length of the header of a file of pictures.
pub const IMAGES_HEADER_LEN: usize = 16;

/// The length of the header of a file of labels.
pub const LABELS_HEADER_LEN: usize = 8;

/// The number of gray values of a picture.
pub const IMAGE_LEN: usize = 784;

/// The number of digits that a label tells apart.
pub const CLASSES: usize = 10;

/// The greatest index that a random picture is taken at.
pub const LAST_RANDOM_INDEX: usize = 9999;

/// The number of pictures in `len` bytes of gray values: the last picture
/// may be cut short.
pub open spec fn image_count(len: nat) -> nat {
    (len + IMAGE_LEN - 1) as nat / (IMAGE_LEN as nat)
}

/// The picture at `index` among the gray values: 784 of them from
/// `index * 784` on, or as many as are left, or none.
pub open spec fn image_at(values: Seq<u8>, index: nat) -> Seq<u8> {
    let start = index * IMAGE_LEN;
    if start >= values.len() {
        Seq::empty()
    } else if start + IMAGE_LEN <= values.len() {
        values.subrange(start as int, start + IMAGE_LEN)
    } else {
        values.subrange(start as int, values.len() as int)
    }
}

/// A random index from 0 to 9999, drawn by `rand::Rng::gen_range` on
/// `rand::thread_rng()`. The crate documents that the value lies in the
/// range that it is given; the contract claims no more.
#[verifier::external_body]
fn random_index() -> (r: usize)
    ensures
        r <= LAST_RANDOM_INDEX,
{
    rand::Rng::gen_range(&mut rand::thread_rng(), 0..=LAST_RANDOM_INDEX)
}

/// Why a data set cannot be read.
#[derive(Debug, Clone, Copy, PartialEq, Eq)]
pub enum DatasetError {
    /// The file of pictures is shorter than its header.
    NoImages,
    /// The file of labels is shorter than its header.
    NoLabels,
    /// A label is no digit.
    NoDigit(u8),
    /// The network failed in training.
    Network(Error),
}

impl MnistImage {
    /// The picture at `index` of a file of pictures.
    pub fn nth(dataset: &[u8], index: usize) -> (r: MnistImage)
        requires
            dataset@.len() >= IMAGES_HEADER_LEN,
        ensures
            r.0@ == image_at(dataset@.skip(IMAGES_HEADER_LEN as int), index as nat),
    {
        let ghost values = dataset@.skip(IMAGES_HEADER_LEN as int);
        let len = dataset.len() - IMAGES_HEADER_LEN;
        let mut picture: Vec<u8> = Vec::new();
        if index >= len / IMAGE_LEN + 1 {
            return MnistImage(picture);
        }
        let start = index * IMAGE_LEN;
        if start >= len {
            return MnistImage(picture);
        }
        let end = if len - start >= IMAGE_LEN {
            start + IMAGE_LEN
        } else {
            len
        };
        let mut i: usize = start;
        while i < end
            invariant
                start <= i <= end,
                end <= len,
                dataset@.len() <= usize::MAX,
                len == dataset@.len() - IMAGES_HEADER_LEN,
                values == dataset@.skip(IMAGES_HEADER_LEN as int),
                picture@ == values.subrange(start as int, i as int),
            decreases end - i,
        {
            picture.push(dataset[i + IMAGES_HEADER_LEN]);
            i += 1;
        }
        MnistImage(picture)
    }

    /// A picture of a file of pictures, at a random index from 0 to 9999.
    pub fn get_random(dataset: &[u8]) -> (r: MnistImage)
        requires
            dataset@.len() >= IMAGES_HEADER_LEN,
        ensures
            exists|index: nat|
                index <= LAST_RANDOM_INDEX && r.0@ == #[trigger] image_at(
                    dataset@.skip(IMAGES_HEADER_LEN as int),
                    index,
                ),
    {
        MnistImage::nth(dataset, random_index())
    }

    /// The pictures of a file of pictures, in their order.
    pub fn get_all(dataset: &[u8]) -> (r: Vec<MnistImage>)
        requires
            dataset@.len() >= IMAGES_HEADER_LEN,
        ensures
            r@.len() == image_count((dataset@.len() - IMAGES_HEADER_LEN) as nat),
            forall|i: int|
                0 <= i < r@.len() ==> (#[trigger] r@[i]).0@ == image_at(
                    dataset@.skip(IMAGES_HEADER_LEN as int),
                    i as nat,
                ),
    {
        let len = dataset.len() - IMAGES_HEADER_LEN;
        let count = if len == 0 {
            0
        } else {
            (len - 1) / IMAGE_LEN + 1
        };
        let mut pictures: Vec<MnistImage> = Vec::new();
        let mut index: usize = 0;
        while index < count
            invariant
                index <= count,
                dataset@.len() >= IMAGES_HEADER_LEN,
                pictures@.len() == index,
                forall|i: int|
                    0 <= i < index ==> (#[trigger] pictures@[i]).0@ == image_at(
                        dataset@.skip(IMAGES_HEADER_LEN as int),
                        i as nat,
                    ),
            decreases count - index,
        {
            pictures.push(MnistImage::nth(dataset, index));
            index += 1;
        }
        pictures
    }
}

/// `values` are ten values, `high` at the place of the digit and `low` at
/// every other.
pub open spec fn is_label_of<T>(digit: u8, low: T, high: T, values: Seq<T>) -> bool {
    &&& values.len() == CLASSES
    &&& forall|i: int|
        0 <= i < CLASSES ==> #[trigger] values[i] == if i == digit {
            high
        } else {
            low
        }
}

/// Ten values, `high` at the place of the digit and `low` at every other.
pub fn label_vector<T: Copy>(digit: u8, low: T, high: T) -> (r: Vec<T>)
    requires
        digit < CLASSES,
    ensures
        is_label_of(digit, low, high, r@),
{
    let mut labels: Vec<T> = Vec::new();
    let mut i: usize = 0;
    while i < CLASSES
        invariant
            i <= CLASSES,
            labels@.len() == i,
            forall|k: int|
                0 <= k < i ==> #[trigger] labels@[k] == if k == digit {
                    high
                } else {
                    low
                },
        decreases CLASSES - i,
    {
        if i == digit as usize {
            labels.push(high);
        } else {
            labels.push(low);
        }
        i += 1;
    }
    labels
}

/// The number of entries that a file of pictures and a file of labels give:
/// as many as there are pictures, and no more than there are labels.
pub open spec fn entry_count(images: Seq<u8>, labels: Seq<u8>) -> nat {
    let pictures = image_count((images.len() - IMAGES_HEADER_LEN) as nat);
    let digits = (labels.len() - LABELS_HEADER_LEN) as nat;
    if pictures <= digits {
        pictures
    } else {
        digits
    }
}

/// Why the files cannot be read, if they cannot: a file shorter than its
/// header, or else the first label of an entry that is no digit.
pub open spec fn dataset_failure(images: Seq<u8>, labels: Seq<u8>) -> Option<DatasetError> {
    if images.len() < IMAGES_HEADER_LEN {
        Some(DatasetError::NoImages)
    } else if labels.len() < LABELS_HEADER_LEN {
        Some(DatasetError::NoLabels)
    } else if exists|i: int| is_first_bad_label(images, labels, i) {
        let i = choose|i: int| is_first_bad_label(images, labels, i);
        Some(DatasetError::NoDigit(labels[i + LABELS_HEADER_LEN]))
    } else {
        None
    }
}

/// Entry `i` is the first whose label is no digit.
pub open spec fn is_first_bad_label(images: Seq<u8>, labels: Seq<u8>, i: int) -> bool {
    &&& 0 <= i < entry_count(images, labels)
    &&& labels[i + LABELS_HEADER_LEN] >= CLASSES
    &&& forall|j: int| 0 <= j < i ==> #[trigger] labels[j + LABELS_HEADER_LEN] < CLASSES
}

/// There is at most one first entry whose label is no digit.
pub proof fn lemma_first_bad_label_is_one(images: Seq<u8>, labels: Seq<u8>, i: int, j: int)
    requires
        is_first_bad_label(images, labels, i),
        is_first_bad_label(images, labels, j),
    ensures
        i == j,
{
}

/// `entries` are the training entries of the files: for each picture with
/// a label, in their order, the picture brought into the range from one
/// hundredth to one, and ten values for its digit, 99 hundredths at the
/// digit's place and one hundredth at every other.
pub open spec fn is_training_data_of<T: Numeric>(
    images: Seq<u8>,
    labels: Seq<u8>,
    entries: Seq<TrainingEntry<T>>,
) -> bool {
    exists|levels: Levels<T>|
        {
            &&& #[trigger] levels.is_levels()
            &&& entries.len() == entry_count(images, labels)
            &&& forall|i: int|
                0 <= i < entries.len() ==> {
                    &&& is_image_of(
                        image_at(images.skip(IMAGES_HEADER_LEN as int), i as nat),
                        (#[trigger] entries[i]).input@,
                    )
                    &&& is_label_of(
                        labels[i + LABELS_HEADER_LEN],
                        levels.shift,
                        levels.scale,
                        entries[i].expected_output@,
                    )
                }
        }
}

/// The training entries of a file of pictures and a file of labels.
///
/// Fails exactly where `dataset_failure` names a reason, and with that
/// reason.
pub fn training_data<T: Numeric>(images: &[u8], labels: &[u8]) -> (r: Result<
    TrainingData<T>,
    DatasetError,
>)
    ensures
        match r {
            Ok(data) => dataset_failure(images@, labels@) is None && is_training_data_of(
                images@,
                labels@,
                data.0@,
            ),
            Err(e) => dataset_failure(images@, labels@) == Some(e),
        },
{
    if images.len() < IMAGES_HEADER_LEN {
        return Err(DatasetError::NoImages);
    }
    if labels.len() < LABELS_HEADER_LEN {
        return Err(DatasetError::NoLabels);
    }
    let len = images.len() - IMAGES_HEADER_LEN;
    let pictures = if len == 0 {
        0
    } else {
        (len - 1) / IMAGE_LEN + 1
    };
    let digits = labels.len() - LABELS_HEADER_LEN;
    let count = if pictures <= digits {
        pictures
    } else {
        digits
    };
    let levels = Levels::<T>::new();
    let mut entries: Vec<TrainingEntry<T>> = Vec::new();
    let mut i: usize = 0;
    while i < count
        invariant
            i <= count,
            count == entry_count(images@, labels@),
            images@.len() >= IMAGES_HEADER_LEN,
            labels@.len() >= LABELS_HEADER_LEN,
            labels@.len() <= usize::MAX,
            levels.is_levels(),
            entries@.len() == i,
            forall|j: int| 0 <= j < i ==> #[trigger] labels@[j + LABELS_HEADER_LEN] < CLASSES,
            forall|j: int|
                0 <= j < i ==> {
                    &&& is_image_of(
                        image_at(images@.skip(IMAGES_HEADER_LEN as int), j as nat),
                        (#[trigger] entries@[j]).input@,
                    )
                    &&& is_label_of(
                        labels@[j + LABELS_HEADER_LEN],
                        levels.shift,
                        levels.scale,
                        entries@[j].expected_output@,
                    )
                },
        decreases count - i,
    {
        let digit = labels[i + LABELS_HEADER_LEN];
        if digit as usize >= CLASSES {
            proof {
                assert(is_first_bad_label(images@, labels@, i as int));
                let first = choose|k: int| is_first_bad_label(images@, labels@, k);
                lemma_first_bad_label_is_one(images@, labels@, i as int, first);
            }
            return Err(DatasetError::NoDigit(digit));
        }
        let picture = MnistImage::nth(images, i);
        let input = NeuralNetworkImage::<T>::from_mnist_image(&picture);
        let expected_output = label_vector(digit, levels.shift, levels.scale);
        entries.push(TrainingEntry { input: input.0, expected_output });
        i += 1;
    }
    Ok(TrainingData(entries))
}

/// A network for the data set: a value of input for each gray value of a
/// picture, one hidden layer of `amount_of_hidden_neurons`, and a value of
/// output for each digit.
pub fn create<T: Scalar>(amount_of_hidden_neurons: u32) -> (r: NeuralNetwork<T>)
    ensures
        r.amount_of_input_neurons == IMAGE_LEN,
        r.amount_of_hidden_neurons == amount_of_hidden_neurons,
        r.amount_of_output_neurons == CLASSES,
        r.amount_of_hidden_layers == 1,
        r.has_topology(),
        r.has_initial_weights(),
{
    NeuralNetwork::new_with_random_values(784, amount_of_hidden_neurons, 10, 1)
}

/// The network after `amount_of_training_rounds` rounds of training on the
/// entries of a file of pictures and a file of labels.
///
/// Fails where the files cannot be read, with the reason that
/// `dataset_failure` names, and where training on their entries fails, with
/// `Network` and the reason of the training.
pub fn train<T: Numeric>(
    neural_network: NeuralNetwork<T>,
    images: &[u8],
    labels: &[u8],
    amount_of_training_rounds: u32,
    learning_rate: T,
) -> (r: Result<NeuralNetwork<T>, DatasetError>)
    ensures
        match r {
            Ok(trained) => {
                &&& dataset_failure(images@, labels@) is None
                &&& trained.has_architecture_of(&neural_network)
                &&& exists|entries: Seq<TrainingEntry<T>>|
                    {
                        &&& #[trigger] is_training_data_of(images@, labels@, entries)
                        &&& is_training(
                            learning_rate,
                            entries,
                            amount_of_training_rounds as nat,
                            neural_network.weights(),
                            trained.weights(),
                        )
                    }
            },
            Err(DatasetError::Network(e)) => {
                &&& dataset_failure(images@, labels@) is None
                &&& amount_of_training_rounds > 0
                &&& exists|entries: Seq<TrainingEntry<T>>|
                    {
                        &&& #[trigger] is_training_data_of(images@, labels@, entries)
                        &&& neural_network.fails_first_with(entries, e)
                    }
            },
            Err(e) => dataset_failure(images@, labels@) == Some(e),
        },
{
    let training_data = match training_data::<T>(images, labels) {
        Ok(data) => data,
        Err(e) => {
            return Err(e);
        },
    };
    match neural_network.train(&training_data, amount_of_training_rounds, learning_rate) {
        Ok(trained) => {
            Ok(trained)
        },
        Err(e) => {
            Err(DatasetError::Network(e))
        },
    }
}

/// A picture with its label, as values of a network.
#[derive(Debug)]
pub struct Image<T> {
    /// Ten values: one at the place of the picture's digit, zero at every
    /// other.
    pub label: Vec<T>,
    /// The gray values of the picture, as they are.
    pub datapoints: Vec<T>,
}

/// `values` are the numbers of the bytes, in their order.
pub open spec fn is_numbers_of<T: Numeric>(bytes: Seq<u8>, values: Seq<T>) -> bool {
    &&& values.len() == bytes.len()
    &&& forall|i: int| 0 <= i < bytes.len() ==> is_from_byte(bytes[i], #[trigger] values[i])
}

/// `picture` is the picture of the given gray values and digit: the gray
/// values as numbers, and ten values for the digit, zero plus one at the
/// digit's place and zero at every other.
pub open spec fn is_labelled_image<T: Numeric>(digit: u8, pixels: Seq<u8>, picture: Image<T>) -> bool {
    &&& is_numbers_of(pixels, picture.datapoints@)
    &&& exists|zero: T, one: T, high: T|
        {
            &&& is_zero(zero)
            &&& is_one(one)
            &&& #[trigger] is_sum(zero, one, high)
            &&& is_label_of(digit, zero, high, picture.label@)
        }
}

/// `pictures` are the labelled pictures of the files: one for each picture
/// with a label, in their order.
pub open spec fn is_labelled_images_of<T: Numeric>(
    labels: Seq<u8>,
    images: Seq<u8>,
    pictures: Seq<Image<T>>,
) -> bool {
    &&& pictures.len() == entry_count(images, labels)
    &&& forall|i: int|
        0 <= i < pictures.len() ==> is_labelled_image(
            labels[i + LABELS_HEADER_LEN],
            image_at(images.skip(IMAGES_HEADER_LEN as int), i as nat),
            #[trigger] pictures[i],
        )
}

/// The labelled pictures of a file of labels and a file of pictures.
///
/// Fails exactly where `dataset_failure` names a reason, and with that
/// reason.
pub fn get_mnist_training_labels_and_images<T: Numeric>(labels: &[u8], images: &[u8]) -> (r: Result<
    Vec<Image<T>>,
    DatasetError,
>)
    ensures
        match r {
            Ok(pictures) => dataset_failure(images@, labels@) is None && is_labelled_images_of(
                labels@,
                images@,
                pictures@,
            ),
            Err(e) => dataset_failure(images@, labels@) == Some(e),
        },
{
    if images.len() < IMAGES_HEADER_LEN {
        return Err(DatasetError::NoImages);
    }
    if labels.len() < LABELS_HEADER_LEN {
        return Err(DatasetError::NoLabels);
    }
    let len = images.len() - IMAGES_HEADER_LEN;
    let count_of_pictures = if len == 0 {
        0
    } else {
        (len - 1) / IMAGE_LEN + 1
    };
    let digits = labels.len() - LABELS_HEADER_LEN;
    let count = if count_of_pictures <= digits {
        count_of_pictures
    } else {
        digits
    };
    let mut pictures: Vec<Image<T>> = Vec::new();
    let mut i: usize = 0;
    while i < count
        invariant
            i <= count,
            count == entry_count(images@, labels@),
            images@.len() >= IMAGES_HEADER_LEN,
            labels@.len() >= LABELS_HEADER_LEN,
            labels@.len() <= usize::MAX,
            pictures@.len() == i,
            forall|j: int| 0 <= j < i ==> #[trigger] labels@[j + LABELS_HEADER_LEN] < CLASSES,
            forall|j: int|
                0 <= j < i ==> is_labelled_image(
                    labels@[j + LABELS_HEADER_LEN],
                    image_at(images@.skip(IMAGES_HEADER_LEN as int), j as nat),
                    #[trigger] pictures@[j],
                ),
        decreases count - i,
    {
        let digit = labels[i + LABELS_HEADER_LEN];
        if digit as usize >= CLASSES {
            proof {
                assert(is_first_bad_label(images@, labels@, i as int));
                let first = choose|k: int| is_first_bad_label(images@, labels@, k);
                lemma_first_bad_label_is_one(images@, labels@, i as int, first);
            }
            return Err(DatasetError::NoDigit(digit));
        }
        let picture = MnistImage::nth(images, i);
        let datapoints = numbers_of::<T>(&picture.0);
        let zero = T::zero();
        let one = T::one();
        let high = zero.plus(one);
        let label = label_vector(digit, zero, high);
        let image = Image { label, datapoints };
        proof {
            assert(is_sum(zero, one, high));
        }
        pictures.push(image);
        i += 1;
    }
    Ok(pictures)
}

/// The numbers of the bytes, in their order.
pub fn numbers_of<T: Numeric>(bytes: &Vec<u8>) -> (r: Vec<T>)
    ensures
        is_numbers_of(bytes@, r@),
{
    let mut values: Vec<T> = Vec::new();
    let mut i: usize = 0;
    while i < bytes.len()
        invariant
            i <= bytes@.len(),
            values@.len() == i,
            forall|k: int| 0 <= k < i ==> is_from_byte(bytes@[k], #[trigger] values@[k]),
        decreases bytes@.len() - i,
    {
        values.push(T::from_byte(bytes[i]));
        i += 1;
    }
    values
}

} // verus!
