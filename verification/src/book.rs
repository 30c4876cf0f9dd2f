//! The sixty-six books, in canonical order, and the two ways in which a book is written.

use crate::error::DataInputError;
use crate::text::str_equal;
use vstd::prelude::*;

verus! {

/// A book of the Bible. A verse key holds the book's place in this list.
#[derive(Clone, Copy, Debug, PartialEq, Eq, Structural, PartialOrd, Ord, Hash)]
pub enum Book {
    Genesis,
    Exodus,
    Leviticus,
    Numbers,
    Deuteronomy,
    Joshua,
    Judges,
    Ruth,
    FirstSamuel,
    SecondSamuel,
    FirstKings,
    SecondKings,
    FirstChronicles,
    SecondChronicles,
    Ezra,
    Nehemiah,
    Esther,
    Job,
    Psalms,
    Proverbs,
    Ecclesiastes,
    SongOfSolomon,
    Isaiah,
    Jeremiah,
    Lamentations,
    Ezekiel,
    Daniel,
    Hosea,
    Joel,
    Amos,
    Obadiah,
    Jonah,
    Micah,
    Nahum,
    Habakkuk,
    Zephaniah,
    Haggai,
    Zechariah,
    Malachi,
    Matthew,
    Mark,
    Luke,
    John,
    Acts,
    Romans,
    FirstCorinthians,
    SecondCorinthians,
    Galatians,
    Ephesians,
    Philippians,
    Colossians,
    FirstThessalonians,
    SecondThessalonians,
    FirstTimothy,
    SecondTimothy,
    Titus,
    Philemon,
    Hebrews,
    James,
    FirstPeter,
    SecondPeter,
    FirstJohn,
    SecondJohn,
    ThirdJohn,
    Jude,
    Revelation,
}

impl Book {
    /// The book's place in the canonical order, from 0.
    pub open spec fn spec_ordinal(self) -> int {
        match self {
            Book::Genesis => 0,
            Book::Exodus => 1,
            Book::Leviticus => 2,
            Book::Numbers => 3,
            Book::Deuteronomy => 4,
            Book::Joshua => 5,
            Book::Judges => 6,
            Book::Ruth => 7,
            Book::FirstSamuel => 8,
            Book::SecondSamuel => 9,
            Book::FirstKings => 10,
            Book::SecondKings => 11,
            Book::FirstChronicles => 12,
            Book::SecondChronicles => 13,
            Book::Ezra => 14,
            Book::Nehemiah => 15,
            Book::Esther => 16,
            Book::Job => 17,
            Book::Psalms => 18,
            Book::Proverbs => 19,
            Book::Ecclesiastes => 20,
            Book::SongOfSolomon => 21,
            Book::Isaiah => 22,
            Book::Jeremiah => 23,
            Book::Lamentations => 24,
            Book::Ezekiel => 25,
            Book::Daniel => 26,
            Book::Hosea => 27,
            Book::Joel => 28,
            Book::Amos => 29,
            Book::Obadiah => 30,
            Book::Jonah => 31,
            Book::Micah => 32,
            Book::Nahum => 33,
            Book::Habakkuk => 34,
            Book::Zephaniah => 35,
            Book::Haggai => 36,
            Book::Zechariah => 37,
            Book::Malachi => 38,
            Book::Matthew => 39,
            Book::Mark => 40,
            Book::Luke => 41,
            Book::John => 42,
            Book::Acts => 43,
            Book::Romans => 44,
            Book::FirstCorinthians => 45,
            Book::SecondCorinthians => 46,
            Book::Galatians => 47,
            Book::Ephesians => 48,
            Book::Philippians => 49,
            Book::Colossians => 50,
            Book::FirstThessalonians => 51,
            Book::SecondThessalonians => 52,
            Book::FirstTimothy => 53,
            Book::SecondTimothy => 54,
            Book::Titus => 55,
            Book::Philemon => 56,
            Book::Hebrews => 57,
            Book::James => 58,
            Book::FirstPeter => 59,
            Book::SecondPeter => 60,
            Book::FirstJohn => 61,
            Book::SecondJohn => 62,
            Book::ThirdJohn => 63,
            Book::Jude => 64,
            Book::Revelation => 65,
        }
    }

    /// The book's name in full, in capitals, as a citation spells it.
    pub open spec fn long_name(self) -> Seq<char> {
        match self {
            Book::Genesis => "GENESIS"@,
            Book::Exodus => "EXODUS"@,
            Book::Leviticus => "LEVITICUS"@,
            Book::Numbers => "NUMBERS"@,
            Book::Deuteronomy => "DEUTERONOMY"@,
            Book::Joshua => "JOSHUA"@,
            Book::Judges => "JUDGES"@,
            Book::Ruth => "RUTH"@,
            Book::FirstSamuel => "FIRST SAMUEL"@,
            Book::SecondSamuel => "SECOND SAMUEL"@,
            Book::FirstKings => "FIRST KINGS"@,
            Book::SecondKings => "SECOND KINGS"@,
            Book::FirstChronicles => "FIRST CHRONICLES"@,
            Book::SecondChronicles => "SECOND CHRONICLES"@,
            Book::Ezra => "EZRA"@,
            Book::Nehemiah => "NEHEMIAH"@,
            Book::Esther => "ESTHER"@,
            Book::Job => "JOB"@,
            Book::Psalms => "PSALMS"@,
            Book::Proverbs => "PROVERBS"@,
            Book::Ecclesiastes => "ECCLESIASTES"@,
            Book::SongOfSolomon => "SONG OF SOLOMON"@,
            Book::Isaiah => "ISAIAH"@,
            Book::Jeremiah => "JEREMIAH"@,
            Book::Lamentations => "LAMENTATIONS"@,
            Book::Ezekiel => "EZEKIEL"@,
            Book::Daniel => "DANIEL"@,
            Book::Hosea => "HOSEA"@,
            Book::Joel => "JOEL"@,
            Book::Amos => "AMOS"@,
            Book::Obadiah => "OBADIAH"@,
            Book::Jonah => "JONAH"@,
            Book::Micah => "MICAH"@,
            Book::Nahum => "NAHUM"@,
            Book::Habakkuk => "HABAKKUK"@,
            Book::Zephaniah => "ZEPHANIAH"@,
            Book::Haggai => "HAGGAI"@,
            Book::Zechariah => "ZECHARIAH"@,
            Book::Malachi => "MALACHI"@,
            Book::Matthew => "MATTHEW"@,
            Book::Mark => "MARK"@,
            Book::Luke => "LUKE"@,
            Book::John => "JOHN"@,
            Book::Acts => "ACTS"@,
            Book::Romans => "ROMANS"@,
            Book::FirstCorinthians => "FIRST CORINTHIANS"@,
            Book::SecondCorinthians => "SECOND CORINTHIANS"@,
            Book::Galatians => "GALATIANS"@,
            Book::Ephesians => "EPHESIANS"@,
            Book::Philippians => "PHILIPPIANS"@,
            Book::Colossians => "COLOSSIANS"@,
            Book::FirstThessalonians => "FIRST THESSALONIANS"@,
            Book::SecondThessalonians => "SECOND THESSALONIANS"@,
            Book::FirstTimothy => "FIRST TIMOTHY"@,
            Book::SecondTimothy => "SECOND TIMOTHY"@,
            Book::Titus => "TITUS"@,
            Book::Philemon => "PHILEMON"@,
            Book::Hebrews => "HEBREWS"@,
            Book::James => "JAMES"@,
            Book::FirstPeter => "FIRST PETER"@,
            Book::SecondPeter => "SECOND PETER"@,
            Book::FirstJohn => "FIRST JOHN"@,
            Book::SecondJohn => "SECOND JOHN"@,
            Book::ThirdJohn => "THIRD JOHN"@,
            Book::Jude => "JUDE"@,
            Book::Revelation => "REVELATION"@,
        }
    }

    /// The book's name as a translation file spells it, with a digit for its number.
    pub open spec fn short_name(self) -> Seq<char> {
        match self {
            Book::Genesis => "Genesis"@,
            Book::Exodus => "Exodus"@,
            Book::Leviticus => "Leviticus"@,
            Book::Numbers => "Numbers"@,
            Book::Deuteronomy => "Deuteronomy"@,
            Book::Joshua => "Joshua"@,
            Book::Judges => "Judges"@,
            Book::Ruth => "Ruth"@,
            Book::FirstSamuel => "1 Samuel"@,
            Book::SecondSamuel => "2 Samuel"@,
            Book::FirstKings => "1 Kings"@,
            Book::SecondKings => "2 Kings"@,
            Book::FirstChronicles => "1 Chronicles"@,
            Book::SecondChronicles => "2 Chronicles"@,
            Book::Ezra => "Ezra"@,
            Book::Nehemiah => "Nehemiah"@,
            Book::Esther => "Esther"@,
            Book::Job => "Job"@,
            Book::Psalms => "Psalms"@,
            Book::Proverbs => "Proverbs"@,
            Book::Ecclesiastes => "Ecclesiastes"@,
            Book::SongOfSolomon => "Song of Solomon"@,
            Book::Isaiah => "Isaiah"@,
            Book::Jeremiah => "Jeremiah"@,
            Book::Lamentations => "Lamentations"@,
            Book::Ezekiel => "Ezekiel"@,
            Book::Daniel => "Daniel"@,
            Book::Hosea => "Hosea"@,
            Book::Joel => "Joel"@,
            Book::Amos => "Amos"@,
            Book::Obadiah => "Obadiah"@,
            Book::Jonah => "Jonah"@,
            Book::Micah => "Micah"@,
            Book::Nahum => "Nahum"@,
            Book::Habakkuk => "Habakkuk"@,
            Book::Zephaniah => "Zephaniah"@,
            Book::Haggai => "Haggai"@,
            Book::Zechariah => "Zechariah"@,
            Book::Malachi => "Malachi"@,
            Book::Matthew => "Matthew"@,
            Book::Mark => "Mark"@,
            Book::Luke => "Luke"@,
            Book::John => "John"@,
            Book::Acts => "Acts"@,
            Book::Romans => "Romans"@,
            Book::FirstCorinthians => "1 Corinthians"@,
            Book::SecondCorinthians => "2 Corinthians"@,
            Book::Galatians => "Galatians"@,
            Book::Ephesians => "Ephesians"@,
            Book::Philippians => "Philippians"@,
            Book::Colossians => "Colossians"@,
            Book::FirstThessalonians => "1 Thessalonians"@,
            Book::SecondThessalonians => "2 Thessalonians"@,
            Book::FirstTimothy => "1 Timothy"@,
            Book::SecondTimothy => "2 Timothy"@,
            Book::Titus => "Titus"@,
            Book::Philemon => "Philemon"@,
            Book::Hebrews => "Hebrews"@,
            Book::James => "James"@,
            Book::FirstPeter => "1 Peter"@,
            Book::SecondPeter => "2 Peter"@,
            Book::FirstJohn => "1 John"@,
            Book::SecondJohn => "2 John"@,
            Book::ThirdJohn => "3 John"@,
            Book::Jude => "Jude"@,
            Book::Revelation => "Revelation"@,
        }
    }

    /// The book with the given name in full and in capitals, if there is one.
    pub open spec fn of_long_name(name: Seq<char>) -> Option<Book> {
        if name == "GENESIS"@ {
            Some(Book::Genesis)
        } else if name == "EXODUS"@ {
            Some(Book::Exodus)
        } else if name == "LEVITICUS"@ {
            Some(Book::Leviticus)
        } else if name == "NUMBERS"@ {
            Some(Book::Numbers)
        } else if name == "DEUTERONOMY"@ {
            Some(Book::Deuteronomy)
        } else if name == "JOSHUA"@ {
            Some(Book::Joshua)
        } else if name == "JUDGES"@ {
            Some(Book::Judges)
        } else if name == "RUTH"@ {
            Some(Book::Ruth)
        } else if name == "FIRST SAMUEL"@ {
            Some(Book::FirstSamuel)
        } else if name == "SECOND SAMUEL"@ {
            Some(Book::SecondSamuel)
        } else if name == "FIRST KINGS"@ {
            Some(Book::FirstKings)
        } else if name == "SECOND KINGS"@ {
            Some(Book::SecondKings)
        } else if name == "FIRST CHRONICLES"@ {
            Some(Book::FirstChronicles)
        } else if name == "SECOND CHRONICLES"@ {
            Some(Book::SecondChronicles)
        } else if name == "EZRA"@ {
            Some(Book::Ezra)
        } else if name == "NEHEMIAH"@ {
            Some(Book::Nehemiah)
        } else if name == "ESTHER"@ {
            Some(Book::Esther)
        } else if name == "JOB"@ {
            Some(Book::Job)
        } else if name == "PSALMS"@ {
            Some(Book::Psalms)
        } else if name == "PROVERBS"@ {
            Some(Book::Proverbs)
        } else if name == "ECCLESIASTES"@ {
            Some(Book::Ecclesiastes)
        } else if name == "SONG OF SOLOMON"@ {
            Some(Book::SongOfSolomon)
        } else if name == "ISAIAH"@ {
            Some(Book::Isaiah)
        } else if name == "JEREMIAH"@ {
            Some(Book::Jeremiah)
        } else if name == "LAMENTATIONS"@ {
            Some(Book::Lamentations)
        } else if name == "EZEKIEL"@ {
            Some(Book::Ezekiel)
        } else if name == "DANIEL"@ {
            Some(Book::Daniel)
        } else if name == "HOSEA"@ {
            Some(Book::Hosea)
        } else if name == "JOEL"@ {
            Some(Book::Joel)
        } else if name == "AMOS"@ {
            Some(Book::Amos)
        } else if name == "OBADIAH"@ {
            Some(Book::Obadiah)
        } else if name == "JONAH"@ {
            Some(Book::Jonah)
        } else if name == "MICAH"@ {
            Some(Book::Micah)
        } else if name == "NAHUM"@ {
            Some(Book::Nahum)
        } else if name == "HABAKKUK"@ {
            Some(Book::Habakkuk)
        } else if name == "ZEPHANIAH"@ {
            Some(Book::Zephaniah)
        } else if name == "HAGGAI"@ {
            Some(Book::Haggai)
        } else if name == "ZECHARIAH"@ {
            Some(Book::Zechariah)
        } else if name == "MALACHI"@ {
            Some(Book::Malachi)
        } else if name == "MATTHEW"@ {
            Some(Book::Matthew)
        } else if name == "MARK"@ {
            Some(Book::Mark)
        } else if name == "LUKE"@ {
            Some(Book::Luke)
        } else if name == "JOHN"@ {
            Some(Book::John)
        } else if name == "ACTS"@ {
            Some(Book::Acts)
        } else if name == "ROMANS"@ {
            Some(Book::Romans)
        } else if name == "FIRST CORINTHIANS"@ {
            Some(Book::FirstCorinthians)
        } else if name == "SECOND CORINTHIANS"@ {
            Some(Book::SecondCorinthians)
        } else if name == "GALATIANS"@ {
            Some(Book::Galatians)
        } else if name == "EPHESIANS"@ {
            Some(Book::Ephesians)
        } else if name == "PHILIPPIANS"@ {
            Some(Book::Philippians)
        } else if name == "COLOSSIANS"@ {
            Some(Book::Colossians)
        } else if name == "FIRST THESSALONIANS"@ {
            Some(Book::FirstThessalonians)
        } else if name == "SECOND THESSALONIANS"@ {
            Some(Book::SecondThessalonians)
        } else if name == "FIRST TIMOTHY"@ {
            Some(Book::FirstTimothy)
        } else if name == "SECOND TIMOTHY"@ {
            Some(Book::SecondTimothy)
        } else if name == "TITUS"@ {
            Some(Book::Titus)
        } else if name == "PHILEMON"@ {
            Some(Book::Philemon)
        } else if name == "HEBREWS"@ {
            Some(Book::Hebrews)
        } else if name == "JAMES"@ {
            Some(Book::James)
        } else if name == "FIRST PETER"@ {
            Some(Book::FirstPeter)
        } else if name == "SECOND PETER"@ {
            Some(Book::SecondPeter)
        } else if name == "FIRST JOHN"@ {
            Some(Book::FirstJohn)
        } else if name == "SECOND JOHN"@ {
            Some(Book::SecondJohn)
        } else if name == "THIRD JOHN"@ {
            Some(Book::ThirdJohn)
        } else if name == "JUDE"@ {
            Some(Book::Jude)
        } else if name == "REVELATION"@ {
            Some(Book::Revelation)
        } else {
            None
        }
    }

    /// The book with the given name as a translation file spells it, if there is one.
    pub open spec fn of_short_name(name: Seq<char>) -> Option<Book> {
        if name == "Genesis"@ {
            Some(Book::Genesis)
        } else if name == "Exodus"@ {
            Some(Book::Exodus)
        } else if name == "Leviticus"@ {
            Some(Book::Leviticus)
        } else if name == "Numbers"@ {
            Some(Book::Numbers)
        } else if name == "Deuteronomy"@ {
            Some(Book::Deuteronomy)
        } else if name == "Joshua"@ {
            Some(Book::Joshua)
        } else if name == "Judges"@ {
            Some(Book::Judges)
        } else if name == "Ruth"@ {
            Some(Book::Ruth)
        } else if name == "1 Samuel"@ {
            Some(Book::FirstSamuel)
        } else if name == "2 Samuel"@ {
            Some(Book::SecondSamuel)
        } else if name == "1 Kings"@ {
            Some(Book::FirstKings)
        } else if name == "2 Kings"@ {
            Some(Book::SecondKings)
        } else if name == "1 Chronicles"@ {
            Some(Book::FirstChronicles)
        } else if name == "2 Chronicles"@ {
            Some(Book::SecondChronicles)
        } else if name == "Ezra"@ {
            Some(Book::Ezra)
        } else if name == "Nehemiah"@ {
            Some(Book::Nehemiah)
        } else if name == "Esther"@ {
            Some(Book::Esther)
        } else if name == "Job"@ {
            Some(Book::Job)
        } else if name == "Psalms"@ {
            Some(Book::Psalms)
        } else if name == "Proverbs"@ {
            Some(Book::Proverbs)
        } else if name == "Ecclesiastes"@ {
            Some(Book::Ecclesiastes)
        } else if name == "Song of Solomon"@ {
            Some(Book::SongOfSolomon)
        } else if name == "Isaiah"@ {
            Some(Book::Isaiah)
        } else if name == "Jeremiah"@ {
            Some(Book::Jeremiah)
        } else if name == "Lamentations"@ {
            Some(Book::Lamentations)
        } else if name == "Ezekiel"@ {
            Some(Book::Ezekiel)
        } else if name == "Daniel"@ {
            Some(Book::Daniel)
        } else if name == "Hosea"@ {
            Some(Book::Hosea)
        } else if name == "Joel"@ {
            Some(Book::Joel)
        } else if name == "Amos"@ {
            Some(Book::Amos)
        } else if name == "Obadiah"@ {
            Some(Book::Obadiah)
        } else if name == "Jonah"@ {
            Some(Book::Jonah)
        } else if name == "Micah"@ {
            Some(Book::Micah)
        } else if name == "Nahum"@ {
            Some(Book::Nahum)
        } else if name == "Habakkuk"@ {
            Some(Book::Habakkuk)
        } else if name == "Zephaniah"@ {
            Some(Book::Zephaniah)
        } else if name == "Haggai"@ {
            Some(Book::Haggai)
        } else if name == "Zechariah"@ {
            Some(Book::Zechariah)
        } else if name == "Malachi"@ {
            Some(Book::Malachi)
        } else if name == "Matthew"@ {
            Some(Book::Matthew)
        } else if name == "Mark"@ {
            Some(Book::Mark)
        } else if name == "Luke"@ {
            Some(Book::Luke)
        } else if name == "John"@ {
            Some(Book::John)
        } else if name == "Acts"@ {
            Some(Book::Acts)
        } else if name == "Romans"@ {
            Some(Book::Romans)
        } else if name == "1 Corinthians"@ {
            Some(Book::FirstCorinthians)
        } else if name == "2 Corinthians"@ {
            Some(Book::SecondCorinthians)
        } else if name == "Galatians"@ {
            Some(Book::Galatians)
        } else if name == "Ephesians"@ {
            Some(Book::Ephesians)
        } else if name == "Philippians"@ {
            Some(Book::Philippians)
        } else if name == "Colossians"@ {
            Some(Book::Colossians)
        } else if name == "1 Thessalonians"@ {
            Some(Book::FirstThessalonians)
        } else if name == "2 Thessalonians"@ {
            Some(Book::SecondThessalonians)
        } else if name == "1 Timothy"@ {
            Some(Book::FirstTimothy)
        } else if name == "2 Timothy"@ {
            Some(Book::SecondTimothy)
        } else if name == "Titus"@ {
            Some(Book::Titus)
        } else if name == "Philemon"@ {
            Some(Book::Philemon)
        } else if name == "Hebrews"@ {
            Some(Book::Hebrews)
        } else if name == "James"@ {
            Some(Book::James)
        } else if name == "1 Peter"@ {
            Some(Book::FirstPeter)
        } else if name == "2 Peter"@ {
            Some(Book::SecondPeter)
        } else if name == "1 John"@ {
            Some(Book::FirstJohn)
        } else if name == "2 John"@ {
            Some(Book::SecondJohn)
        } else if name == "3 John"@ {
            Some(Book::ThirdJohn)
        } else if name == "Jude"@ {
            Some(Book::Jude)
        } else if name == "Revelation"@ {
            Some(Book::Revelation)
        } else {
            None
        }
    }

    /// The book's place in the canonical order, from 0.
    pub fn ordinal(self) -> (n: i32)
        ensures
            n == self.spec_ordinal(),
            0 <= n < 66,
    {
        match self {
            Book::Genesis => 0,
            Book::Exodus => 1,
            Book::Leviticus => 2,
            Book::Numbers => 3,
            Book::Deuteronomy => 4,
            Book::Joshua => 5,
            Book::Judges => 6,
            Book::Ruth => 7,
            Book::FirstSamuel => 8,
            Book::SecondSamuel => 9,
            Book::FirstKings => 10,
            Book::SecondKings => 11,
            Book::FirstChronicles => 12,
            Book::SecondChronicles => 13,
            Book::Ezra => 14,
            Book::Nehemiah => 15,
            Book::Esther => 16,
            Book::Job => 17,
            Book::Psalms => 18,
            Book::Proverbs => 19,
            Book::Ecclesiastes => 20,
            Book::SongOfSolomon => 21,
            Book::Isaiah => 22,
            Book::Jeremiah => 23,
            Book::Lamentations => 24,
            Book::Ezekiel => 25,
            Book::Daniel => 26,
            Book::Hosea => 27,
            Book::Joel => 28,
            Book::Amos => 29,
            Book::Obadiah => 30,
            Book::Jonah => 31,
            Book::Micah => 32,
            Book::Nahum => 33,
            Book::Habakkuk => 34,
            Book::Zephaniah => 35,
            Book::Haggai => 36,
            Book::Zechariah => 37,
            Book::Malachi => 38,
            Book::Matthew => 39,
            Book::Mark => 40,
            Book::Luke => 41,
            Book::John => 42,
            Book::Acts => 43,
            Book::Romans => 44,
            Book::FirstCorinthians => 45,
            Book::SecondCorinthians => 46,
            Book::Galatians => 47,
            Book::Ephesians => 48,
            Book::Philippians => 49,
            Book::Colossians => 50,
            Book::FirstThessalonians => 51,
            Book::SecondThessalonians => 52,
            Book::FirstTimothy => 53,
            Book::SecondTimothy => 54,
            Book::Titus => 55,
            Book::Philemon => 56,
            Book::Hebrews => 57,
            Book::James => 58,
            Book::FirstPeter => 59,
            Book::SecondPeter => 60,
            Book::FirstJohn => 61,
            Book::SecondJohn => 62,
            Book::ThirdJohn => 63,
            Book::Jude => 64,
            Book::Revelation => 65,
        }
    }

    /// Reads a book's name in full and in capitals. Any other text is refused.
    pub fn from_string(name: &str) -> (r: Result<Book, DataInputError>)
        ensures
            match r {
                Ok(book) => Book::of_long_name(name@) == Some(book) && book.long_name() == name@,
                Err(_) => Book::of_long_name(name@) is None && forall|book: Book|
                    book.long_name() != name@,
            },
    {
        if str_equal(name, "GENESIS") {
            Ok(Book::Genesis)
        } else if str_equal(name, "EXODUS") {
            Ok(Book::Exodus)
        } else if str_equal(name, "LEVITICUS") {
            Ok(Book::Leviticus)
        } else if str_equal(name, "NUMBERS") {
            Ok(Book::Numbers)
        } else if str_equal(name, "DEUTERONOMY") {
            Ok(Book::Deuteronomy)
        } else if str_equal(name, "JOSHUA") {
            Ok(Book::Joshua)
        } else if str_equal(name, "JUDGES") {
            Ok(Book::Judges)
        } else if str_equal(name, "RUTH") {
            Ok(Book::Ruth)
        } else if str_equal(name, "FIRST SAMUEL") {
            Ok(Book::FirstSamuel)
        } else if str_equal(name, "SECOND SAMUEL") {
            Ok(Book::SecondSamuel)
        } else if str_equal(name, "FIRST KINGS") {
            Ok(Book::FirstKings)
        } else if str_equal(name, "SECOND KINGS") {
            Ok(Book::SecondKings)
        } else if str_equal(name, "FIRST CHRONICLES") {
            Ok(Book::FirstChronicles)
        } else if str_equal(name, "SECOND CHRONICLES") {
            Ok(Book::SecondChronicles)
        } else if str_equal(name, "EZRA") {
            Ok(Book::Ezra)
        } else if str_equal(name, "NEHEMIAH") {
            Ok(Book::Nehemiah)
        } else if str_equal(name, "ESTHER") {
            Ok(Book::Esther)
        } else if str_equal(name, "JOB") {
            Ok(Book::Job)
        } else if str_equal(name, "PSALMS") {
            Ok(Book::Psalms)
        } else if str_equal(name, "PROVERBS") {
            Ok(Book::Proverbs)
        } else if str_equal(name, "ECCLESIASTES") {
            Ok(Book::Ecclesiastes)
        } else if str_equal(name, "SONG OF SOLOMON") {
            Ok(Book::SongOfSolomon)
        } else if str_equal(name, "ISAIAH") {
            Ok(Book::Isaiah)
        } else if str_equal(name, "JEREMIAH") {
            Ok(Book::Jeremiah)
        } else if str_equal(name, "LAMENTATIONS") {
            Ok(Book::Lamentations)
        } else if str_equal(name, "EZEKIEL") {
            Ok(Book::Ezekiel)
        } else if str_equal(name, "DANIEL") {
            Ok(Book::Daniel)
        } else if str_equal(name, "HOSEA") {
            Ok(Book::Hosea)
        } else if str_equal(name, "JOEL") {
            Ok(Book::Joel)
        } else if str_equal(name, "AMOS") {
            Ok(Book::Amos)
        } else if str_equal(name, "OBADIAH") {
            Ok(Book::Obadiah)
        } else if str_equal(name, "JONAH") {
            Ok(Book::Jonah)
        } else if str_equal(name, "MICAH") {
            Ok(Book::Micah)
        } else if str_equal(name, "NAHUM") {
            Ok(Book::Nahum)
        } else if str_equal(name, "HABAKKUK") {
            Ok(Book::Habakkuk)
        } else if str_equal(name, "ZEPHANIAH") {
            Ok(Book::Zephaniah)
        } else if str_equal(name, "HAGGAI") {
            Ok(Book::Haggai)
        } else if str_equal(name, "ZECHARIAH") {
            Ok(Book::Zechariah)
        } else if str_equal(name, "MALACHI") {
            Ok(Book::Malachi)
        } else if str_equal(name, "MATTHEW") {
            Ok(Book::Matthew)
        } else if str_equal(name, "MARK") {
            Ok(Book::Mark)
        } else if str_equal(name, "LUKE") {
            Ok(Book::Luke)
        } else if str_equal(name, "JOHN") {
            Ok(Book::John)
        } else if str_equal(name, "ACTS") {
            Ok(Book::Acts)
        } else if str_equal(name, "ROMANS") {
            Ok(Book::Romans)
        } else if str_equal(name, "FIRST CORINTHIANS") {
            Ok(Book::FirstCorinthians)
        } else if str_equal(name, "SECOND CORINTHIANS") {
            Ok(Book::SecondCorinthians)
        } else if str_equal(name, "GALATIANS") {
            Ok(Book::Galatians)
        } else if str_equal(name, "EPHESIANS") {
            Ok(Book::Ephesians)
        } else if str_equal(name, "PHILIPPIANS") {
            Ok(Book::Philippians)
        } else if str_equal(name, "COLOSSIANS") {
            Ok(Book::Colossians)
        } else if str_equal(name, "FIRST THESSALONIANS") {
            Ok(Book::FirstThessalonians)
        } else if str_equal(name, "SECOND THESSALONIANS") {
            Ok(Book::SecondThessalonians)
        } else if str_equal(name, "FIRST TIMOTHY") {
            Ok(Book::FirstTimothy)
        } else if str_equal(name, "SECOND TIMOTHY") {
            Ok(Book::SecondTimothy)
        } else if str_equal(name, "TITUS") {
            Ok(Book::Titus)
        } else if str_equal(name, "PHILEMON") {
            Ok(Book::Philemon)
        } else if str_equal(name, "HEBREWS") {
            Ok(Book::Hebrews)
        } else if str_equal(name, "JAMES") {
            Ok(Book::James)
        } else if str_equal(name, "FIRST PETER") {
            Ok(Book::FirstPeter)
        } else if str_equal(name, "SECOND PETER") {
            Ok(Book::SecondPeter)
        } else if str_equal(name, "FIRST JOHN") {
            Ok(Book::FirstJohn)
        } else if str_equal(name, "SECOND JOHN") {
            Ok(Book::SecondJohn)
        } else if str_equal(name, "THIRD JOHN") {
            Ok(Book::ThirdJohn)
        } else if str_equal(name, "JUDE") {
            Ok(Book::Jude)
        } else if str_equal(name, "REVELATION") {
            Ok(Book::Revelation)
        } else {
            Err(DataInputError::new())
        }
    }

    /// Reads a book's name as a translation file spells it. Any other text is refused.
    pub fn from_str(book: &str) -> (r: Result<Book, DataInputError>)
        ensures
            match r {
                Ok(b) => Book::of_short_name(book@) == Some(b) && b.short_name() == book@,
                Err(_) => Book::of_short_name(book@) is None && forall|b: Book|
                    b.short_name() != book@,
            },
    {
        if str_equal(book, "Genesis") {
            Ok(Book::Genesis)
        } else if str_equal(book, "Exodus") {
            Ok(Book::Exodus)
        } else if str_equal(book, "Leviticus") {
            Ok(Book::Leviticus)
        } else if str_equal(book, "Numbers") {
            Ok(Book::Numbers)
        } else if str_equal(book, "Deuteronomy") {
            Ok(Book::Deuteronomy)
        } else if str_equal(book, "Joshua") {
            Ok(Book::Joshua)
        } else if str_equal(book, "Judges") {
            Ok(Book::Judges)
        } else if str_equal(book, "Ruth") {
            Ok(Book::Ruth)
        } else if str_equal(book, "1 Samuel") {
            Ok(Book::FirstSamuel)
        } else if str_equal(book, "2 Samuel") {
            Ok(Book::SecondSamuel)
        } else if str_equal(book, "1 Kings") {
            Ok(Book::FirstKings)
        } else if str_equal(book, "2 Kings") {
            Ok(Book::SecondKings)
        } else if str_equal(book, "1 Chronicles") {
            Ok(Book::FirstChronicles)
        } else if str_equal(book, "2 Chronicles") {
            Ok(Book::SecondChronicles)
        } else if str_equal(book, "Ezra") {
            Ok(Book::Ezra)
        } else if str_equal(book, "Nehemiah") {
            Ok(Book::Nehemiah)
        } else if str_equal(book, "Esther") {
            Ok(Book::Esther)
        } else if str_equal(book, "Job") {
            Ok(Book::Job)
        } else if str_equal(book, "Psalms") {
            Ok(Book::Psalms)
        } else if str_equal(book, "Proverbs") {
            Ok(Book::Proverbs)
        } else if str_equal(book, "Ecclesiastes") {
            Ok(Book::Ecclesiastes)
        } else if str_equal(book, "Song of Solomon") {
            Ok(Book::SongOfSolomon)
        } else if str_equal(book, "Isaiah") {
            Ok(Book::Isaiah)
        } else if str_equal(book, "Jeremiah") {
            Ok(Book::Jeremiah)
        } else if str_equal(book, "Lamentations") {
            Ok(Book::Lamentations)
        } else if str_equal(book, "Ezekiel") {
            Ok(Book::Ezekiel)
        } else if str_equal(book, "Daniel") {
            Ok(Book::Daniel)
        } else if str_equal(book, "Hosea") {
            Ok(Book::Hosea)
        } else if str_equal(book, "Joel") {
            Ok(Book::Joel)
        } else if str_equal(book, "Amos") {
            Ok(Book::Amos)
        } else if str_equal(book, "Obadiah") {
            Ok(Book::Obadiah)
        } else if str_equal(book, "Jonah") {
            Ok(Book::Jonah)
        } else if str_equal(book, "Micah") {
            Ok(Book::Micah)
        } else if str_equal(book, "Nahum") {
            Ok(Book::Nahum)
        } else if str_equal(book, "Habakkuk") {
            Ok(Book::Habakkuk)
        } else if str_equal(book, "Zephaniah") {
            Ok(Book::Zephaniah)
        } else if str_equal(book, "Haggai") {
            Ok(Book::Haggai)
        } else if str_equal(book, "Zechariah") {
            Ok(Book::Zechariah)
        } else if str_equal(book, "Malachi") {
            Ok(Book::Malachi)
        } else if str_equal(book, "Matthew") {
            Ok(Book::Matthew)
        } else if str_equal(book, "Mark") {
            Ok(Book::Mark)
        } else if str_equal(book, "Luke") {
            Ok(Book::Luke)
        } else if str_equal(book, "John") {
            Ok(Book::John)
        } else if str_equal(book, "Acts") {
            Ok(Book::Acts)
        } else if str_equal(book, "Romans") {
            Ok(Book::Romans)
        } else if str_equal(book, "1 Corinthians") {
            Ok(Book::FirstCorinthians)
        } else if str_equal(book, "2 Corinthians") {
            Ok(Book::SecondCorinthians)
        } else if str_equal(book, "Galatians") {
            Ok(Book::Galatians)
        } else if str_equal(book, "Ephesians") {
            Ok(Book::Ephesians)
        } else if str_equal(book, "Philippians") {
            Ok(Book::Philippians)
        } else if str_equal(book, "Colossians") {
            Ok(Book::Colossians)
        } else if str_equal(book, "1 Thessalonians") {
            Ok(Book::FirstThessalonians)
        } else if str_equal(book, "2 Thessalonians") {
            Ok(Book::SecondThessalonians)
        } else if str_equal(book, "1 Timothy") {
            Ok(Book::FirstTimothy)
        } else if str_equal(book, "2 Timothy") {
            Ok(Book::SecondTimothy)
        } else if str_equal(book, "Titus") {
            Ok(Book::Titus)
        } else if str_equal(book, "Philemon") {
            Ok(Book::Philemon)
        } else if str_equal(book, "Hebrews") {
            Ok(Book::Hebrews)
        } else if str_equal(book, "James") {
            Ok(Book::James)
        } else if str_equal(book, "1 Peter") {
            Ok(Book::FirstPeter)
        } else if str_equal(book, "2 Peter") {
            Ok(Book::SecondPeter)
        } else if str_equal(book, "1 John") {
            Ok(Book::FirstJohn)
        } else if str_equal(book, "2 John") {
            Ok(Book::SecondJohn)
        } else if str_equal(book, "3 John") {
            Ok(Book::ThirdJohn)
        } else if str_equal(book, "Jude") {
            Ok(Book::Jude)
        } else if str_equal(book, "Revelation") {
            Ok(Book::Revelation)
        } else {
            Err(DataInputError::new())
        }
    }
}

} // verus!
