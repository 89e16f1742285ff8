//! Image names: file names of programs, in lower case and of bounded length.

use vstd::prelude::*;

use crate::text;

verus! {

pub const MAX_IMAGE_NAME_CHARS: usize = 260;

#[derive(Clone, Copy, Debug, Eq, PartialEq, Structural)]
pub enum ImageNameError {
    Empty,
    TooLong,
}

impl ImageNameError {
    pub fn message(&self) -> (message: String)
        ensures
            message@ == match self {
                ImageNameError::Empty => "image name must not be empty"@,
                ImageNameError::TooLong => "image name exceeds 260 characters"@,
            },
    {
        match self {
            ImageNameError::Empty => "image name must not be empty".to_string(),
            ImageNameError::TooLong => "image name exceeds 260 characters".to_string(),
        }
    }
}

/// The lowercase mappings of the characters of `name`, one after the other.
pub open spec fn lowercase_name(name: Seq<char>) -> Seq<char>
    decreases name.len(),
{
    if name.len() == 0 {
        Seq::empty()
    } else {
        lowercase_name(name.drop_last()) + text::lowercase_of(name.last())
    }
}

pub open spec fn is_ascii_text(name: Seq<char>) -> bool {
    forall|i: int| 0 <= i < name.len() ==> (#[trigger] name[i] as u32) < 128
}

/// The name of a program, without regard to case.
#[derive(Debug, Eq, Hash, PartialEq)]
pub struct ImageName {
    chars: Vec<char>,
}

impl View for ImageName {
    type V = Seq<char>;

    closed spec fn view(&self) -> Seq<char> {
        self.chars@
    }
}

impl Clone for ImageName {
    fn clone(&self) -> (copy: Self)
        ensures
            copy@ == self@,
    {
        proof {
            use_type_invariant(self);
        }
        ImageName { chars: copy_chars(&self.chars) }
    }
}

pub(crate) fn copy_chars(chars: &Vec<char>) -> (copy: Vec<char>)
    ensures
        copy@ == chars@,
{
    let mut copy: Vec<char> = Vec::new();
    let mut i: usize = 0;
    while i < chars.len()
        invariant
            i <= chars@.len(),
            copy@ == chars@.subrange(0, i as int),
        decreases chars@.len() - i,
    {
        copy.push(chars[i]);
        i = i + 1;
        assert(copy@ =~= chars@.subrange(0, i as int));
    }
    assert(chars@.subrange(0, chars@.len() as int) =~= chars@);
    copy
}

impl ImageName {
    #[verifier::type_invariant]
    spec fn wf(&self) -> bool {
        self.chars@.len() <= MAX_IMAGE_NAME_CHARS
    }

    pub fn is_empty(&self) -> (empty: bool)
        ensures
            empty == (self@.len() == 0),
    {
        self.chars.len() == 0
    }

    /// The name in lower case. On ASCII text that is the ASCII lower case.
    pub fn parse(value: &str) -> (parsed: Result<Self, ImageNameError>)
        ensures
            match parsed {
                Ok(image) => {
                    &&& value@.len() > 0
                    &&& 0 < lowercase_name(value@).len() <= MAX_IMAGE_NAME_CHARS
                    &&& image@ == lowercase_name(value@)
                    &&& is_ascii_text(value@) ==> image@ == text::lowered(value@)
                },
                Err(ImageNameError::Empty) => value@.len() == 0,
                Err(ImageNameError::TooLong) => lowercase_name(value@).len() > MAX_IMAGE_NAME_CHARS,
            },
            parsed == Err::<Self, ImageNameError>(ImageNameError::Empty) <==> value@.len() == 0,
            value@.len() > MAX_IMAGE_NAME_CHARS ==> parsed == Err::<Self, ImageNameError>(
                ImageNameError::TooLong,
            ),
            is_ascii_text(value@) && 0 < value@.len() <= MAX_IMAGE_NAME_CHARS ==> parsed is Ok,
    {
        let lower = lowercase_text(value);
        if lower.len() > MAX_IMAGE_NAME_CHARS {
            return Err(ImageNameError::TooLong);
        }
        if lower.len() == 0 {
            return Err(ImageNameError::Empty);
        }
        Ok(ImageName { chars: lower })
    }

    pub fn as_string(&self) -> (name: String)
        ensures
            name@ == self@,
    {
        text::text_of(&self.chars)
    }

    /// Tells whether `other` names the same program. On ASCII text that is equality without
    /// regard to case.
    pub fn eq_ignore_ascii_case_str(&self, other: &str) -> (same: bool)
        ensures
            same == (self@ == lowercase_name(other@)),
            is_ascii_text(other@) ==> same == (self@ == text::lowered(other@)),
    {
        let lower = lowercase_text(other);
        text::same_text(text::text_of(&self.chars).as_str(), text::text_of(&lower).as_str())
    }

    /// Tells whether the two names are the same.
    pub fn same_name(&self, other: &ImageName) -> (same: bool)
        ensures
            same == (self@ == other@),
    {
        text::same_text(text::text_of(&self.chars).as_str(), text::text_of(&other.chars).as_str())
    }
}

/// Two names that are read compare as the names that they are read as: a name matches a text
/// exactly where the text is read as that name, and so the text that it was read from.
pub proof fn law_names_compare_as_they_are_read(
    text: &str,
    other: &str,
    image: ImageName,
    other_image: ImageName,
    same: bool,
)
    requires
        call_ensures(ImageName::parse, (text,), Ok(image)),
        call_ensures(ImageName::parse, (other,), Ok(other_image)),
        call_ensures(ImageName::eq_ignore_ascii_case_str, (&image, other), same),
    ensures
        same <==> image@ == other_image@,
        text@ == other@ ==> same,
{
}

/// Two ASCII names are read as the same name exactly where they differ in case only.
pub proof fn law_case_does_not_tell_names_apart(
    text: &str,
    other: &str,
    image: ImageName,
    other_image: ImageName,
)
    requires
        is_ascii_text(text@),
        is_ascii_text(other@),
        call_ensures(ImageName::parse, (text,), Ok(image)),
        call_ensures(ImageName::parse, (other,), Ok(other_image)),
    ensures
        image@ == other_image@ <==> text::same_ignoring_case(text@, other@),
{
}

/// A name, written in the lower case that it was read as, is still the same name wherever its
/// characters are their own lower case. Those of an ASCII name are.
pub proof fn law_name_matches_its_own_text(
    text: &str,
    image: ImageName,
    written: &str,
    same: bool,
)
    requires
        call_ensures(ImageName::parse, (text,), Ok(image)),
        written@ == image@,
        call_ensures(ImageName::eq_ignore_ascii_case_str, (&image, written), same),
    ensures
        same <==> lowercase_name(image@) == image@,
        is_ascii_text(text@) ==> same,
{
    if is_ascii_text(text@) {
        assert forall|i: int| 0 <= i < written@.len() implies (#[trigger] written@[i] as u32) < 128
            && text::ascii_lower(written@[i]) == written@[i] by {
            assert((text@[i] as u32) < 128);
        }
        assert(text::lowered(written@) =~= written@);
    }
}

/// The lowercase mappings of the characters of `name`, one after the other.
pub(crate) fn lowercase_text(name: &str) -> (lower: Vec<char>)
    ensures
        lower@ == lowercase_name(name@),
        lower@.len() >= name@.len(),
        is_ascii_text(name@) ==> lower@ == text::lowered(name@),
{
    let chars = text::characters(name);
    let mut lower: Vec<char> = Vec::new();
    let mut i: usize = 0;
    assert(chars@.subrange(0, 0) =~= Seq::empty());
    assert(lower@ =~= text::lowered(chars@.subrange(0, 0)));
    while i < chars.len()
        invariant
            i <= chars@.len(),
            chars@ == name@,
            lower@ == lowercase_name(chars@.subrange(0, i as int)),
            lower@.len() >= i,
            is_ascii_text(name@) ==> lower@ == text::lowered(chars@.subrange(0, i as int)),
        decreases chars@.len() - i,
    {
        let ghost before = lower@;
        let mut mapped = text::lowercase(chars[i]);
        let ghost own = mapped@;
        assert(chars@.subrange(0, i + 1).drop_last() =~= chars@.subrange(0, i as int));
        lower.append(&mut mapped);
        assert(lower@ == before + own);
        proof {
            if is_ascii_text(name@) {
                assert((name@[i as int] as u32) < 128);
                assert(lower@ =~= text::lowered(chars@.subrange(0, i + 1)));
            }
        }
        i = i + 1;
    }
    assert(chars@.subrange(0, chars@.len() as int) =~= chars@);
    lower
}

} // verus!
