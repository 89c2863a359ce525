//! Images as a network sees them: a picture handed in as markup becomes
//! the values of the input neurons, and the network's answer becomes text.
use vstd::prelude::*;
use vstd::string::StringExecFns;
use crate::error::Error;
use crate::feedforward::Feedforward;
use crate::neuralnetwork::{is_answer, NeuralNetwork};
use crate::scalar::{is_difference, is_product, is_quotient, is_sum, Scalar};

verus! {

/// The outside error type of `base64::decode`.
#[verifier::external_type_specification]
#[verifier::external_body]
pub struct ExDecodeError(base64::DecodeError);

/// The outside error type of `image::load_from_memory_with_format`.
#[verifier::external_type_specification]
#[verifier::external_body]
pub struct ExImageError(image::ImageError);

/// What `base64::decode` makes of a text in the standard alphabet: the
/// bytes that it encodes, or nothing where it is no such text.
pub uninterp spec fn base64_decoded(text: Seq<u8>) -> Option<Seq<u8>>;

/// The pixels of a PNG file as 8-bit gray values, row by row, as
/// `image::load_from_memory_with_format` reads the file and
/// `image::DynamicImage::to_luma8` converts what it read; or nothing where
/// the bytes are no PNG file that it reads.
pub uninterp spec fn png_luma8(file: Seq<u8>) -> Option<Seq<u8>>;

/// The PNG file that the `image` crate writes for a picture of the given
/// width and height from 8-bit gray values, row by row: what
/// `image::DynamicImage::write_to` writes for an `ImageLuma8` that
/// `image::ImageBuffer::from_raw` made of the values; or nothing where it
/// writes none.
pub uninterp spec fn png_file(width: u32, height: u32, pixels: Seq<u8>) -> Option<Seq<u8>>;

/// What `base64::encode` makes of bytes: their text in the standard
/// alphabet, with padding.
pub uninterp spec fn base64_encoded(bytes: Seq<u8>) -> Seq<char>;

/// Calls `image::ImageBuffer::from_raw`, which makes a picture of the
/// values where there is one for each pixel and hands back nothing where
/// there are fewer, and `image::DynamicImage::write_to` for the PNG format
/// on the picture as an `ImageLuma8`. What is written is given the name
/// `png_file`: a function of the width, the height and the values alone.
#[verifier::external_body]
fn encode_png(width: u32, height: u32, pixels: Vec<u8>) -> (r: Option<
    Result<Vec<u8>, image::ImageError>,
>)
    requires
        width >= 1,
        height >= 1,
    ensures
        r is None <==> pixels@.len() < width * height,
        match r {
            Some(Ok(file)) => png_file(width, height, pixels@) == Some(file@),
            Some(Err(_)) => png_file(width, height, pixels@) is None,
            None => true,
        },
{
    match image::ImageBuffer::<image::Luma<u8>, Vec<u8>>::from_raw(width, height, pixels) {
        Some(buffer) => {
            let mut file = std::io::Cursor::new(vec![]);
            let picture = image::DynamicImage::ImageLuma8(buffer);
            match picture.write_to(&mut file, image::ImageOutputFormat::Png) {
                Ok(()) => Some(Ok(file.into_inner())),
                Err(e) => Some(Err(e)),
            }
        },
        None => None,
    }
}

/// Calls `base64::encode`, which encodes bytes in the standard alphabet
/// with padding. The call's result is given the name `base64_encoded`: a
/// function of the bytes alone. Bytes so many that the crate's length
/// arithmetic would overflow are left out.
#[verifier::external_body]
fn encode_base64(bytes: &Vec<u8>) -> (r: String)
    requires
        bytes@.len() / 3 * 4 + 4 <= usize::MAX,
    ensures
        r@ == base64_encoded(bytes@),
{
    base64::encode(bytes)
}

/// Calls `base64::decode`, which decodes a text in the standard alphabet
/// with padding. The call's result is given the name `base64_decoded`: a
/// function of the text alone. Texts so long that the crate's length
/// arithmetic would overflow are left out.
#[verifier::external_body]
fn decode_base64(text: &Vec<u8>) -> (r: Result<Vec<u8>, base64::DecodeError>)
    requires
        text@.len() + 7 <= usize::MAX,
    ensures
        match r {
            Ok(bytes) => base64_decoded(text@) == Some(bytes@),
            Err(_) => base64_decoded(text@) is None,
        },
{
    base64::decode(text)
}

/// Calls `image::load_from_memory_with_format` for the PNG format and
/// `image::DynamicImage::to_luma8` on what it returns, and copies the gray
/// values out. The result is given the name `png_luma8`: a function of the
/// file's bytes alone.
#[verifier::external_body]
fn decode_png(file: &Vec<u8>) -> (r: Result<Vec<u8>, image::ImageError>)
    ensures
        match r {
            Ok(pixels) => png_luma8(file@) == Some(pixels@),
            Err(_) => png_luma8(file@) is None,
        },
{
    match image::load_from_memory_with_format(file, image::ImageFormat::Png) {
        Ok(decoded) => Ok(image::EncodableLayout::as_bytes(&*decoded.to_luma8()).to_vec()),
        Err(e) => Err(e),
    }
}

/// The numbers that pictures are made of and answers are read from.
///
/// The methods carry no contract, as those of a `Scalar`.
pub trait Numeric: Scalar {
    /// The number of the same value as the byte.
    fn from_byte(value: u8) -> Self;

    /// The number, written out.
    fn to_text(self) -> String;

    /// The byte nearest to the number.
    fn to_byte(self) -> u8;
}

/// `r` is a value that `T::from_byte(value)` may return.
pub open spec fn is_from_byte<T: Numeric>(value: u8, r: T) -> bool {
    call_ensures(T::from_byte, (value,), r)
}

/// `r` is a byte that `value.to_byte()` may return.
pub open spec fn is_to_byte<T: Numeric>(value: T, r: u8) -> bool {
    call_ensures(T::to_byte, (value,), r)
}

/// `text` is a text that `value.to_text()` may return.
pub open spec fn is_text_of<T: Numeric>(value: T, text: Seq<char>) -> bool {
    exists|s: String| #[trigger] call_ensures(T::to_text, (value,), s) && s@ == text
}

/// `r` is the number of `numerator` divided by the number of `denominator`.
pub open spec fn is_ratio<T: Numeric>(numerator: u8, denominator: u8, r: T) -> bool {
    exists|n: T, d: T|
        #![trigger is_from_byte(numerator, n), is_from_byte(denominator, d)]
        is_from_byte(numerator, n) && is_from_byte(denominator, d) && is_quotient(n, d, r)
}

/// The constants that gray values are brought into the range of the
/// logistic function with.
pub struct Levels<T> {
    /// The brightest gray value, 255.
    pub white: T,
    /// The width of the range, 99 hundredths.
    pub scale: T,
    /// The lower end of the range, one hundredth.
    pub shift: T,
}

impl<T: Numeric> Levels<T> {
    /// The constants are what their names say.
    pub open spec fn is_levels(self) -> bool {
        &&& is_from_byte(255, self.white)
        &&& is_ratio(99, 100, self.scale)
        &&& is_ratio(1, 100, self.shift)
    }

    /// `r` is the gray value `pixel`, brought into the range: the pixel
    /// divided by white, times the scale, plus the shift.
    pub open spec fn brings(self, pixel: u8, r: T) -> bool {
        exists|p: T, q: T, s: T|
            #![trigger is_quotient(p, self.white, q), is_product(q, self.scale, s)]
            is_from_byte(pixel, p) && is_quotient(p, self.white, q) && is_product(
                q,
                self.scale,
                s,
            ) && is_sum(s, self.shift, r)
    }

    /// `r` is the gray value that `value` was brought into the range from:
    /// the value minus the shift, divided by the scale, times white, as the
    /// nearest byte.
    pub open spec fn takes_back(self, value: T, r: u8) -> bool {
        exists|d: T, q: T, p: T|
            #![trigger is_quotient(d, self.scale, q), is_product(q, self.white, p)]
            is_difference(value, self.shift, d) && is_quotient(d, self.scale, q) && is_product(
                q,
                self.white,
                p,
            ) && is_to_byte(p, r)
    }

    /// The gray value that `value` was brought into the range from.
    pub fn take_back(&self, value: T) -> (r: u8)
        ensures
            self.takes_back(value, r),
    {
        let d = value.minus(self.shift);
        let q = d.divided_by(self.scale);
        let p = q.times(self.white);
        let r = p.to_byte();
        proof {
            assert(is_quotient(d, self.scale, q) && is_product(q, self.white, p));
        }
        r
    }

    /// The constants.
    pub fn new() -> (r: Levels<T>)
        ensures
            r.is_levels(),
    {
        let white = T::from_byte(255);
        let ninety_nine = T::from_byte(99);
        let one = T::from_byte(1);
        let hundred = T::from_byte(100);
        let scale = ninety_nine.divided_by(hundred);
        let again = T::from_byte(100);
        let shift = one.divided_by(again);
        proof {
            assert(is_from_byte(99, ninety_nine) && is_from_byte(100, hundred));
            assert(is_from_byte(1, one) && is_from_byte(100, again));
        }
        Levels { white, scale, shift }
    }

    /// The gray value, brought into the levels.
    pub fn bring(&self, pixel: u8) -> (r: T)
        ensures
            self.brings(pixel, r),
    {
        let p = T::from_byte(pixel);
        let q = p.divided_by(self.white);
        let s = q.times(self.scale);
        let r = s.plus(self.shift);
        proof {
            assert(is_quotient(p, self.white, q) && is_product(q, self.scale, s));
        }
        r
    }
}

/// `values` are the gray values `pixels`, each brought into the range from
/// one hundredth to one.
pub open spec fn is_image_of<T: Numeric>(pixels: Seq<u8>, values: Seq<T>) -> bool {
    exists|levels: Levels<T>|
        {
            &&& #[trigger] levels.is_levels()
            &&& values.len() == pixels.len()
            &&& forall|i: int|
                0 <= i < pixels.len() ==> levels.brings(pixels[i], #[trigger] values[i])
        }
}

/// `pixels` are the gray values that `values` were brought into the range
/// from.
pub open spec fn is_picture_of<T: Numeric>(values: Seq<T>, pixels: Seq<u8>) -> bool {
    exists|levels: Levels<T>|
        {
            &&& #[trigger] levels.is_levels()
            &&& pixels.len() == values.len()
            &&& forall|i: int|
                0 <= i < values.len() ==> levels.takes_back(values[i], #[trigger] pixels[i])
        }
}

/// A picture of 28 by 28 gray values, as the data set of handwritten
/// digits holds them.
#[derive(Debug, Clone)]
pub struct MnistImage(pub Vec<u8>);

/// A picture as markup: an `img` element that holds a PNG file as base64.
#[derive(Debug)]
pub struct Base64Png(pub String);

/// A picture as the values of the input neurons.
#[derive(Debug, Clone)]
pub struct NeuralNetworkImage<T>(pub Vec<T>);

/// Why a picture cannot be read.
#[derive(Debug, Clone, Copy, PartialEq, Eq)]
pub enum PictureError {
    /// The markup is shorter than what stands in front of the picture, or
    /// cannot be cut there.
    NoPicture,
    /// What the markup holds is no base64 text, or one too long to be
    /// decoded on this machine.
    NoBase64,
    /// What the base64 text holds is no PNG file.
    NoPng,
    /// There are fewer gray values than a picture has pixels.
    TooSmall,
    /// The picture could not be written as a PNG file.
    NotWritten,
    /// The PNG file has more bytes than can be encoded on this machine.
    TooLarge,
    /// The network failed on the picture.
    Network(Error),
}

/// The length of `<img src="data:image/png;base64,`, which stands in front
/// of the picture.
pub const PREFIX_LEN: usize = 32;

/// The text without every `">`, read from the left.
pub open spec fn without_closing(text: Seq<u8>) -> Seq<u8>
    decreases text.len(),
{
    if text.len() == 0 {
        text
    } else if text.len() >= 2 && text[0] == 0x22 && text[1] == 0x3e {
        without_closing(text.skip(2))
    } else {
        seq![text[0]] + without_closing(text.skip(1))
    }
}

/// The base64 text that the markup holds: what follows the first 32 bytes,
/// without every `">`.
pub open spec fn payload_of(markup: Seq<u8>) -> Seq<u8> {
    without_closing(markup.skip(PREFIX_LEN as int))
}

/// The gray values of the picture that the markup holds, or why there are
/// none.
pub open spec fn pixels_of(markup: Seq<char>) -> Result<Seq<u8>, PictureError> {
    let bytes = vstd::utf8::encode_utf8(markup);
    if bytes.len() < PREFIX_LEN || !vstd::utf8::is_char_boundary(bytes, PREFIX_LEN as int) {
        Err(PictureError::NoPicture)
    } else if payload_of(bytes).len() + 7 > usize::MAX {
        Err(PictureError::NoBase64)
    } else {
        match base64_decoded(payload_of(bytes)) {
            None => Err(PictureError::NoBase64),
            Some(file) => match png_luma8(file) {
                None => Err(PictureError::NoPng),
                Some(pixels) => Ok(pixels),
            },
        }
    }
}

/// The bytes of `markup` from `from` on, without every `">`.
fn strip_closing(markup: &[u8], from: usize) -> (r: Vec<u8>)
    requires
        from <= markup@.len(),
    ensures
        r@ == without_closing(markup@.skip(from as int)),
{
    let mut out: Vec<u8> = Vec::new();
    let mut i: usize = from;
    while i < markup.len()
        invariant
            from <= i <= markup@.len(),
            out@ + without_closing(markup@.skip(i as int)) == without_closing(
                markup@.skip(from as int),
            ),
        decreases markup@.len() - i,
    {
        let ghost rest = markup@.skip(i as int);
        if markup[i] == 0x22 && i + 1 < markup.len() && markup[i + 1] == 0x3e {
            proof {
                assert(rest.skip(2) == markup@.skip(i + 2));
            }
            i += 2;
        } else {
            proof {
                assert(rest.skip(1) == markup@.skip(i + 1));
            }
            out.push(markup[i]);
            i += 1;
        }
    }
    out
}

/// The gray values of the picture that the markup holds.
pub fn read_pixels(markup: &str) -> (r: Result<Vec<u8>, PictureError>)
    ensures
        match r {
            Ok(pixels) => pixels_of(markup@) == Ok::<Seq<u8>, PictureError>(pixels@),
            Err(e) => pixels_of(markup@) == Err::<Seq<u8>, PictureError>(e),
        },
{
    let bytes = markup.as_bytes();
    if bytes.len() < PREFIX_LEN || !markup.is_char_boundary(PREFIX_LEN) {
        return Err(PictureError::NoPicture);
    }
    let payload = strip_closing(bytes, PREFIX_LEN);
    if payload.len() > usize::MAX - 7 {
        return Err(PictureError::NoBase64);
    }
    let file = match decode_base64(&payload) {
        Ok(file) => file,
        Err(_) => {
            return Err(PictureError::NoBase64);
        },
    };
    match decode_png(&file) {
        Ok(pixels) => Ok(pixels),
        Err(_) => Err(PictureError::NoPng),
    }
}

/// The width and the height of a picture of the data set.
pub const SIDE: u32 = 28;

/// The markup of a picture of the given gray values, or why there is none:
/// the PNG file of the first 28 by 28 values, as base64, inside an `img`
/// element.
pub open spec fn markup_of(pixels: Seq<u8>) -> Result<Seq<char>, PictureError> {
    if pixels.len() < SIDE * SIDE {
        Err(PictureError::TooSmall)
    } else {
        match png_file(SIDE, SIDE, pixels) {
            None => Err(PictureError::NotWritten),
            Some(file) => if file.len() / 3 * 4 + 4 > usize::MAX {
                Err(PictureError::TooLarge)
            } else {
                Ok("<img src=\"data:image/png;base64,"@ + base64_encoded(file) + "\">"@)
            },
        }
    }
}

impl Base64Png {
    /// The markup of a picture of the data set.
    ///
    /// Fails exactly where `markup_of` names a reason, and with that reason.
    pub fn from_mnist_image(value: MnistImage) -> (r: Result<Base64Png, PictureError>)
        ensures
            match r {
                Ok(markup) => markup_of(value.0@) == Ok::<Seq<char>, PictureError>(markup.0@),
                Err(e) => markup_of(value.0@) == Err::<Seq<char>, PictureError>(e),
            },
    {
        let file = match encode_png(SIDE, SIDE, value.0) {
            None => {
                return Err(PictureError::TooSmall);
            },
            Some(Err(_)) => {
                return Err(PictureError::NotWritten);
            },
            Some(Ok(file)) => file,
        };
        if file.len() / 3 > (usize::MAX - 4) / 4 {
            return Err(PictureError::TooLarge);
        }
        let result = encode_base64(&file);
        Ok(Base64Png::around(result.as_str()))
    }

    /// The `img` element around a PNG file that is given as base64.
    pub fn around(encoded: &str) -> (r: Base64Png)
        ensures
            r.0@ == "<img src=\"data:image/png;base64,"@ + encoded@ + "\">"@,
    {
        let markup = String::from_str("<img src=\"data:image/png;base64,").concat(encoded).concat(
            "\">",
        );
        Base64Png(markup)
    }
}

impl MnistImage {
    /// The picture of the data set that the values of the input neurons
    /// were made of.
    pub fn from_neural_network_image<T: Numeric>(value: &NeuralNetworkImage<T>) -> (r: MnistImage)
        ensures
            is_picture_of(value.0@, r.0@),
    {
        let levels = Levels::<T>::new();
        let mut pixels: Vec<u8> = Vec::new();
        let mut i: usize = 0;
        while i < value.0.len()
            invariant
                i <= value.0@.len(),
                pixels@.len() == i,
                levels.is_levels(),
                forall|k: int| 0 <= k < i ==> levels.takes_back(value.0@[k], #[trigger] pixels@[k]),
            decreases value.0@.len() - i,
        {
            pixels.push(levels.take_back(value.0[i]));
            i += 1;
        }
        MnistImage(pixels)
    }
}

impl<T: Numeric> NeuralNetworkImage<T> {
    /// The picture of the given gray values.
    pub fn from_pixels(pixels: &Vec<u8>) -> (r: NeuralNetworkImage<T>)
        ensures
            is_image_of(pixels@, r.0@),
    {
        let levels = Levels::<T>::new();
        let mut values: Vec<T> = Vec::new();
        let mut i: usize = 0;
        while i < pixels.len()
            invariant
                i <= pixels@.len(),
                values@.len() == i,
                levels.is_levels(),
                forall|k: int| 0 <= k < i ==> levels.brings(pixels@[k], #[trigger] values@[k]),
            decreases pixels@.len() - i,
        {
            values.push(levels.bring(pixels[i]));
            i += 1;
        }
        NeuralNetworkImage(values)
    }

    /// The picture that the markup holds.
    pub fn from_base64_png(value: &Base64Png) -> (r: Result<NeuralNetworkImage<T>, PictureError>)
        ensures
            match r {
                Ok(image) => pixels_of(value.0@) is Ok && is_image_of(
                    pixels_of(value.0@)->Ok_0,
                    image.0@,
                ),
                Err(e) => pixels_of(value.0@) == Err::<Seq<u8>, PictureError>(e),
            },
    {
        match read_pixels(value.0.as_str()) {
            Ok(pixels) => Ok(NeuralNetworkImage::from_pixels(&pixels)),
            Err(e) => Err(e),
        }
    }

    /// The picture of a picture of the data set.
    pub fn from_mnist_image(value: &MnistImage) -> (r: NeuralNetworkImage<T>)
        ensures
            is_image_of(value.0@, r.0@),
    {
        NeuralNetworkImage::from_pixels(&value.0)
    }
}

/// `texts` is the answer of layers of the given weights to the picture of
/// the given gray values, each value of the answer written out.
pub open spec fn is_reading<T: Numeric>(
    weights: Seq<Seq<Seq<T>>>,
    pixels: Seq<u8>,
    texts: Seq<String>,
) -> bool {
    exists|input: Seq<T>, output: Seq<T>|
        {
            &&& #[trigger] is_image_of(pixels, input)
            &&& #[trigger] is_answer(weights, input, output)
            &&& texts.len() == output.len()
            &&& forall|i: int|
                0 <= i < output.len() ==> is_text_of(output[i], (#[trigger] texts[i])@)
        }
}

/// The answer of the network to the picture of the given gray values, each
/// value of the answer written out.
///
/// Fails exactly where the forward pass of as many values as there are
/// gray values fails, and as it does.
pub fn query_pixels<T: Numeric>(nn: &NeuralNetwork<T>, pixels: &Vec<u8>) -> (r: Result<
    Vec<String>,
    Error,
>)
    ensures
        match r {
            Ok(texts) => Feedforward::failure(nn, pixels@.len()) is None && is_reading(
                nn.weights(),
                pixels@,
                texts@,
            ),
            Err(e) => Feedforward::failure(nn, pixels@.len()) == Some(e),
        },
{
    let image = NeuralNetworkImage::<T>::from_pixels(pixels);
    let output = match nn.answer(&image.0) {
        Ok(output) => output,
        Err(e) => {
            return Err(e);
        },
    };
    let mut texts: Vec<String> = Vec::new();
    let mut i: usize = 0;
    while i < output.len()
        invariant
            i <= output@.len(),
            texts@.len() == i,
            forall|k: int| 0 <= k < i ==> is_text_of(output@[k], (#[trigger] texts@[k])@),
        decreases output@.len() - i,
    {
        let text = output[i].to_text();
        texts.push(text);
        i += 1;
    }
    Ok(texts)
}

/// The answer of the network to the picture that the markup holds, each
/// value of the answer written out.
///
/// Fails where the picture cannot be read, with the reason that `pixels_of`
/// names; and where the forward pass of the picture fails, with `Network`
/// and the reason of the pass.
pub fn query_nn<T: Numeric>(nn: &NeuralNetwork<T>, image: String) -> (r: Result<
    Vec<String>,
    PictureError,
>)
    ensures
        match pixels_of(image@) {
            Err(e) => r == Err::<Vec<String>, PictureError>(e),
            Ok(pixels) => match r {
                Ok(texts) => Feedforward::failure(nn, pixels.len()) is None && is_reading(
                    nn.weights(),
                    pixels,
                    texts@,
                ),
                Err(e) => Feedforward::failure(nn, pixels.len()) is Some && e
                    == PictureError::Network(Feedforward::failure(nn, pixels.len())->Some_0),
            },
        },
{
    let pixels = match read_pixels(image.as_str()) {
        Ok(pixels) => pixels,
        Err(e) => {
            return Err(e);
        },
    };
    match query_pixels(nn, &pixels) {
        Ok(texts) => Ok(texts),
        Err(e) => Err(PictureError::Network(e)),
    }
}

} // verus!
