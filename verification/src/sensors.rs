//! Locating temperature sensors in a snapshot of the hwmon class directory:
//! which hwmon device is the CPU's k10temp, which the D5 Next, which the
//! NIC, and which of the k10temp inputs are CCD die temperatures.

use vstd::prelude::*;

use crate::text::{
    contains,
    ends_with,
    has_infix,
    has_prefix,
    has_suffix,
    replace,
    replace_all,
    starts_with,
    trim,
    trimmed_equals,
    trimmed_starts_with,
};

verus! {

/// One file of an hwmon device directory.
pub struct HwmonFile {
    /// The file's name within its directory.
    pub file_name: String,
    /// The file's full path.
    pub path: String,
    /// The file's contents, when they were read and could be read.
    pub contents: Option<String>,
}

/// One hwmon device directory.
pub struct HwmonDevice {
    /// The directory's path.
    pub path: String,
    /// The contents of its `name` file, `None` if that could not be read.
    pub name: Option<String>,
    /// Its files, `None` if the directory could not be listed.
    pub files: Option<Vec<HwmonFile>>,
}

/// One entry of the listing of the hwmon class directory.
pub enum HwmonEntry {
    /// The listing failed at this entry; nothing after it is looked at.
    Unreadable,
    Device(HwmonDevice),
}

/// Where the daemon reads its temperatures from.
pub struct SensorPaths {
    /// Directory of the k10temp hwmon entry (AMD CPU die temperatures).
    pub k10temp_dir: Option<String>,
    /// Path to the D5 Next coolant temperature input file.
    pub d5next_coolant: Option<String>,
    /// Directory of the NIC hwmon entry (PHY + MAC temperatures).
    pub nic_dir: Option<String>,
}

/// The characters of an optional string.
pub open spec fn opt_chars(s: Option<String>) -> Option<Seq<char>> {
    match s {
        Some(t) => Some(t@),
        None => None,
    }
}

/// A file name of the form `temp*_label`.
pub open spec fn is_temp_label_name(name: Seq<char>) -> bool {
    has_prefix(name, "temp"@) && has_suffix(name, "_label"@)
}

/// The device's `name` file, trimmed, equals `target`.
pub open spec fn device_named(d: HwmonDevice, target: Seq<char>) -> bool {
    d.name is Some && trim(d.name->0@) == target
}

/// The index of the first device named `target` at or after `i`, provided
/// the listing does not fail before it.
pub open spec fn find_named_from(l: Seq<HwmonEntry>, target: Seq<char>, i: int) -> Option<int>
    decreases l.len() - i,
{
    if i < 0 || i >= l.len() {
        None
    } else {
        match l[i] {
            HwmonEntry::Unreadable => None,
            HwmonEntry::Device(d) => if device_named(d, target) {
                Some(i)
            } else {
                find_named_from(l, target, i + 1)
            },
        }
    }
}

/// A `temp*_label` file that was read and contains one of `needles`.
pub open spec fn label_matches<'a>(f: HwmonFile, needles: Seq<&'a str>) -> bool {
    &&& is_temp_label_name(f.file_name@)
    &&& f.contents is Some
    &&& exists|k: int| 0 <= k < needles.len() && has_infix(f.contents->0@, #[trigger] needles[k]@)
}

/// The device could be listed and has a matching label file.
pub open spec fn device_labelled<'a>(d: HwmonDevice, needles: Seq<&'a str>) -> bool {
    d.files is Some && exists|j: int|
        0 <= j < d.files->0@.len() && label_matches(#[trigger] d.files->0@[j], needles)
}

/// The index of the first device with a matching label file at or after
/// `i`, provided the listing does not fail before it.
pub open spec fn find_labelled_from<'a>(l: Seq<HwmonEntry>, needles: Seq<&'a str>, i: int) -> Option<int>
    decreases l.len() - i,
{
    if i < 0 || i >= l.len() {
        None
    } else {
        match l[i] {
            HwmonEntry::Unreadable => None,
            HwmonEntry::Device(d) => if device_labelled(d, needles) {
                Some(i)
            } else {
                find_labelled_from(l, needles, i + 1)
            },
        }
    }
}

/// The search by name finds the first device whose `name` file, trimmed,
/// equals `target`, with every entry before it a device of another name;
/// it finds nothing exactly when no device up to the first failed entry has
/// that name.
pub proof fn lemma_find_named_first(l: Seq<HwmonEntry>, target: Seq<char>, i: int)
    requires
        0 <= i,
    ensures
        find_named_from(l, target, i) matches Some(x) ==> {
            &&& i <= x < l.len()
            &&& l[x] matches HwmonEntry::Device(d) && d.name is Some && trim(d.name->0@) == target
            &&& forall|k: int|
                i <= k < x ==> (#[trigger] l[k] matches HwmonEntry::Device(d) && !(d.name is Some
                    && trim(d.name->0@) == target))
        },
        find_named_from(l, target, i) is None ==> forall|k: int|
            i <= k < l.len() && (forall|m: int| i <= m <= k ==> #[trigger] l[m] is Device) ==> !(
            #[trigger] l[k] matches HwmonEntry::Device(d) && d.name is Some && trim(d.name->0@)
                == target),
    decreases l.len() - i,
{
    if i < l.len() {
        lemma_find_named_first(l, target, i + 1);
        if l[i] is Device {
            assert forall|k: int|
                i <= k < l.len() && (forall|m: int| i <= m <= k ==> #[trigger] l[m] is Device)
                    && find_named_from(l, target, i) is None implies !(
            #[trigger] l[k] matches HwmonEntry::Device(d) && d.name is Some && trim(d.name->0@)
                == target) by {
                if k > i {
                    assert(forall|m: int| i + 1 <= m <= k ==> #[trigger] l[m] is Device);
                }
            }
        }
    }
}

/// The search by label finds the first device that could be listed and has
/// a `temp*_label` file, read, whose text contains one of `needles`, with
/// every entry before it a device without one; it finds nothing exactly
/// when no device up to the first failed entry has one.
pub proof fn lemma_find_labelled_first<'a>(l: Seq<HwmonEntry>, needles: Seq<&'a str>, i: int)
    requires
        0 <= i,
    ensures
        find_labelled_from(l, needles, i) matches Some(x) ==> {
            &&& i <= x < l.len()
            &&& l[x] matches HwmonEntry::Device(d) && d.files is Some && exists|j: int|
                0 <= j < d.files->0@.len() && has_prefix((#[trigger] d.files->0@[j]).file_name@, "temp"@)
                    && has_suffix(d.files->0@[j].file_name@, "_label"@) && d.files->0@[j].contents is Some
                    && exists|n: int|
                    0 <= n < needles.len() && has_infix(d.files->0@[j].contents->0@, #[trigger] needles[n]@)
            &&& forall|k: int| i <= k < x ==> #[trigger] l[k] is Device && !device_labelled(l[k]->Device_0, needles)
        },
        find_labelled_from(l, needles, i) is None ==> forall|k: int|
            i <= k < l.len() && (forall|m: int| i <= m <= k ==> #[trigger] l[m] is Device) ==> !(
            #[trigger] l[k] matches HwmonEntry::Device(d) && d.files is Some && exists|j: int|
                0 <= j < d.files->0@.len() && has_prefix((#[trigger] d.files->0@[j]).file_name@, "temp"@)
                    && has_suffix(d.files->0@[j].file_name@, "_label"@) && d.files->0@[j].contents is Some
                    && exists|n: int|
                    0 <= n < needles.len() && has_infix(d.files->0@[j].contents->0@, #[trigger] needles[n]@)),
    decreases l.len() - i,
{
    if i < l.len() {
        lemma_find_labelled_first(l, needles, i + 1);
        if l[i] is Device {
            assert forall|k: int|
                i <= k < l.len() && (forall|m: int| i <= m <= k ==> #[trigger] l[m] is Device)
                    && find_labelled_from(l, needles, i) is None implies !(
            #[trigger] l[k] matches HwmonEntry::Device(d) && d.files is Some && exists|j: int|
                0 <= j < d.files->0@.len() && has_prefix((#[trigger] d.files->0@[j]).file_name@, "temp"@)
                    && has_suffix(d.files->0@[j].file_name@, "_label"@) && d.files->0@[j].contents is Some
                    && exists|n: int|
                    0 <= n < needles.len() && has_infix(d.files->0@[j].contents->0@, #[trigger] needles[n]@)) by {
                if k > i {
                    assert(forall|m: int| i + 1 <= m <= k ==> #[trigger] l[m] is Device);
                }
            }
        }
    }
}

/// The path of the device at a found index.
pub open spec fn found_path(l: Seq<HwmonEntry>, found: Option<int>) -> Option<Seq<char>> {
    match found {
        Some(i) => match l[i] {
            HwmonEntry::Device(d) => Some(d.path@),
            HwmonEntry::Unreadable => None,
        },
        None => None,
    }
}

/// `file` appended to the directory path `dir` as `Path::join` appends a
/// relative component: a `/` goes between them unless `dir` is empty or
/// already ends with one.
pub open spec fn join_spec(dir: Seq<char>, file: Seq<char>) -> Seq<char> {
    if dir.len() > 0 && dir.last() != '/' {
        dir + "/"@ + file
    } else {
        dir + file
    }
}

/// A `temp*_label` file that was read and whose trimmed text starts with
/// `Tccd`: a CCD die temperature of the k10temp driver.
pub open spec fn is_tccd_label(f: HwmonFile) -> bool {
    &&& is_temp_label_name(f.file_name@)
    &&& f.contents is Some
    &&& has_prefix(trim(f.contents->0@), "Tccd"@)
}

/// The input path of each CCD label file, in listing order: the label
/// file's path with every `_label` replaced by `_input`.
pub open spec fn tccd_inputs(files: Seq<HwmonFile>) -> Seq<Seq<char>>
    decreases files.len(),
{
    if files.len() == 0 {
        Seq::empty()
    } else {
        let f = files.last();
        tccd_inputs(files.drop_last()) + if is_tccd_label(f) {
            seq![replace_all(f.path@, "_label"@, "_input"@)]
        } else {
            Seq::empty()
        }
    }
}

/// The test that selects CCD label files, as a predicate on files.
pub open spec fn ccd_label_filter() -> spec_fn(HwmonFile) -> bool {
    |f: HwmonFile| is_tccd_label(f)
}

/// The input path that belongs to a label file: its path with every
/// `_label` replaced by `_input`.
pub open spec fn input_path_of(f: HwmonFile) -> Seq<char> {
    replace_all(f.path@, "_label"@, "_input"@)
}

/// Every CCD label file yields its input path, in listing order, and
/// nothing else is yielded: the inputs are exactly the CCD label files of
/// the listing, each mapped to its input path. So there are as many inputs
/// as CCD label files, and each CCD label file's input is among them.
pub proof fn lemma_tccd_inputs_every_ccd(files: Seq<HwmonFile>)
    ensures
        tccd_inputs(files) == files.filter(ccd_label_filter()).map_values(
            |f: HwmonFile| input_path_of(f),
        ),
        tccd_inputs(files).len() == files.filter(ccd_label_filter()).len(),
        forall|j: int|
            0 <= j < files.len() && is_tccd_label(#[trigger] files[j]) ==> tccd_inputs(files).contains(
                input_path_of(files[j]),
            ),
    decreases files.len(),
{
    let p = ccd_label_filter();
    let g = |f: HwmonFile| input_path_of(f);
    reveal_with_fuel(Seq::<_>::filter, 1);
    if files.len() > 0 {
        let init = files.drop_last();
        lemma_tccd_inputs_every_ccd(init);
        let f = files.last();
        if p(f) {
            assert(files.filter(p) == init.filter(p).push(f));
            assert(files.filter(p).map_values(g) =~= init.filter(p).map_values(g) + seq![g(f)]);
        } else {
            assert(files.filter(p) == init.filter(p));
            assert(files.filter(p).map_values(g) =~= init.filter(p).map_values(g) + Seq::<
                Seq<char>,
            >::empty());
        }
    } else {
        assert(files.filter(p).map_values(g) =~= Seq::<Seq<char>>::empty());
    }
    let out = tccd_inputs(files);
    let kept = files.filter(p);
    assert forall|j: int| 0 <= j < files.len() && is_tccd_label(#[trigger] files[j]) implies out.contains(
        input_path_of(files[j]),
    ) by {
        files.lemma_filter_contains(p, j);
        let m = choose|m: int| 0 <= m < kept.len() && kept[m] == files[j];
        assert(out[m] == input_path_of(files[j]));
    }
}

/// Whether `name` has the form `temp*_label`.
pub fn is_temp_label_file(name: &str) -> (b: bool)
    ensures
        b == is_temp_label_name(name@),
        b == (has_prefix(name@, "temp"@) && has_suffix(name@, "_label"@)),
{
    starts_with(name, "temp") && ends_with(name, "_label")
}

/// The index of the first hwmon device whose `name` file, trimmed, equals
/// `target`; `None` if there is none or the listing fails before one.
pub fn find_hwmon_by_name(listing: &Vec<HwmonEntry>, target: &str) -> (found: Option<usize>)
    ensures
        match found {
            Some(i) => find_named_from(listing@, target@, 0) == Some(i as int),
            None => find_named_from(listing@, target@, 0) is None,
        },
{
    let mut i: usize = 0;
    while i < listing.len()
        invariant
            i <= listing@.len(),
            find_named_from(listing@, target@, 0) == find_named_from(listing@, target@, i as int),
        decreases listing@.len() - i,
    {
        match &listing[i] {
            HwmonEntry::Unreadable => {
                return None;
            },
            HwmonEntry::Device(d) => {
                let named = match &d.name {
                    Some(n) => trimmed_equals(n.as_str(), target),
                    None => false,
                };
                if named {
                    return Some(i);
                }
            },
        }
        i = i + 1;
    }
    None
}

/// Whether `label` contains any of `needles`.
fn contains_any(label: &str, needles: &[&str]) -> (b: bool)
    ensures
        b == exists|k: int| 0 <= k < needles@.len() && has_infix(label@, #[trigger] needles@[k]@),
{
    let mut k: usize = 0;
    while k < needles.len()
        invariant
            k <= needles@.len(),
            forall|m: int| 0 <= m < k ==> !has_infix(label@, #[trigger] needles@[m]@),
        decreases needles@.len() - k,
    {
        if contains(label, needles[k]) {
            return true;
        }
        k = k + 1;
    }
    false
}

/// Whether the device could be listed and has a `temp*_label` file whose
/// text contains one of `needles`.
fn has_matching_label(d: &HwmonDevice, needles: &[&str]) -> (b: bool)
    ensures
        b == device_labelled(*d, needles@),
{
    match &d.files {
        None => false,
        Some(files) => {
            let mut j: usize = 0;
            while j < files.len()
                invariant
                    d.files == Some(*files),
                    j <= files@.len(),
                    forall|m: int| 0 <= m < j ==> !label_matches(#[trigger] files@[m], needles@),
                decreases files@.len() - j,
            {
                let f = &files[j];
                if is_temp_label_file(f.file_name.as_str()) {
                    if let Some(text) = &f.contents {
                        if contains_any(text.as_str(), needles) {
                            assert(label_matches(d.files->0@[j as int], needles@));
                            return true;
                        }
                    }
                }
                j = j + 1;
            }
            false
        },
    }
}

/// The index of the first hwmon device that has a `temp*_label` file whose
/// text contains any of `needles` (case-sensitive); `None` if there is none
/// or the listing fails before one.
pub fn find_hwmon_with_label(listing: &Vec<HwmonEntry>, needles: &[&str]) -> (found: Option<usize>)
    ensures
        match found {
            Some(i) => find_labelled_from(listing@, needles@, 0) == Some(i as int),
            None => find_labelled_from(listing@, needles@, 0) is None,
        },
{
    let mut i: usize = 0;
    while i < listing.len()
        invariant
            i <= listing@.len(),
            find_labelled_from(listing@, needles@, 0) == find_labelled_from(
                listing@,
                needles@,
                i as int,
            ),
        decreases listing@.len() - i,
    {
        match &listing[i] {
            HwmonEntry::Unreadable => {
                return None;
            },
            HwmonEntry::Device(d) => {
                if has_matching_label(d, needles) {
                    return Some(i);
                }
            },
        }
        i = i + 1;
    }
    None
}

/// `dir` joined with the relative file name `file`.
pub fn join_path(dir: &str, file: &str) -> (path: String)
    requires
        file@.len() > 0,
        file@[0] != '/',
    ensures
        path@ == join_spec(dir@, file@),
        dir@.len() > 0 && dir@.last() != '/' ==> path@ == dir@ + seq!['/'] + file@,
        dir@.len() == 0 || dir@.last() == '/' ==> path@ == dir@ + file@,
{
    let mut path = String::from_str(dir);
    let needs_separator = dir.unicode_len() > 0 && !ends_with(dir, "/");
    proof {
        reveal_strlit("/");
        if dir@.len() > 0 {
            assert(has_suffix(dir@, "/"@) == (dir@.last() == '/')) by {
                if dir@.last() == '/' {
                    assert(dir@.subrange(dir@.len() - 1, dir@.len() as int) =~= "/"@);
                } else if has_suffix(dir@, "/"@) {
                    assert(dir@.subrange(dir@.len() - 1, dir@.len() as int)[0] == dir@.last());
                }
            }
        }
    }
    if needs_separator {
        path.append("/");
    }
    path.append(file);
    path
}

/// The path of the device found at `found`, if any.
fn device_path(listing: &Vec<HwmonEntry>, found: Option<usize>) -> (path: Option<String>)
    requires
        match found {
            Some(i) => i < listing@.len(),
            None => true,
        },
    ensures
        opt_chars(path) == found_path(
            listing@,
            match found {
                Some(i) => Some(i as int),
                None => None,
            },
        ),
{
    match found {
        None => None,
        Some(i) => match &listing[i] {
            HwmonEntry::Device(d) => Some(d.path.clone()),
            HwmonEntry::Unreadable => None,
        },
    }
}

/// `find_named_from` only ever yields an index of the listing.
proof fn lemma_find_named_in_range(l: Seq<HwmonEntry>, target: Seq<char>, i: int)
    ensures
        find_named_from(l, target, i) matches Some(k) ==> 0 <= k < l.len() && l[k] is Device,
    decreases l.len() - i,
{
    if 0 <= i < l.len() {
        lemma_find_named_in_range(l, target, i + 1);
    }
}

/// `find_labelled_from` only ever yields an index of the listing.
proof fn lemma_find_labelled_in_range<'a>(l: Seq<HwmonEntry>, needles: Seq<&'a str>, i: int)
    ensures
        find_labelled_from(l, needles, i) matches Some(k) ==> 0 <= k < l.len() && l[k] is Device,
    decreases l.len() - i,
{
    if 0 <= i < l.len() {
        lemma_find_labelled_in_range(l, needles, i + 1);
    }
}

impl SensorPaths {
    /// Picks the sensor locations from a listing of the hwmon class
    /// directory: the first device named `k10temp` for the CPU, the
    /// `temp1_input` of the first device named `d5next` for the coolant, and
    /// the first device with a `temp*_label` mentioning `PHY` or `MAC` for
    /// the NIC. A failure of the listing hides every device after it.
    pub fn discover(listing: &Vec<HwmonEntry>) -> (paths: SensorPaths)
        ensures
            opt_chars(paths.k10temp_dir) == found_path(
                listing@,
                find_named_from(listing@, "k10temp"@, 0),
            ),
            opt_chars(paths.d5next_coolant) == match found_path(
                listing@,
                find_named_from(listing@, "d5next"@, 0),
            ) {
                Some(dir) => Some(join_spec(dir, "temp1_input"@)),
                None => None,
            },
            opt_chars(paths.nic_dir) == found_path(
                listing@,
                find_labelled_from(listing@, seq!["PHY", "MAC"], 0),
            ),
    {
        proof {
            lemma_find_named_in_range(listing@, "k10temp"@, 0);
            lemma_find_named_in_range(listing@, "d5next"@, 0);
            lemma_find_labelled_in_range(listing@, seq!["PHY", "MAC"], 0);
            reveal_strlit("temp1_input");
        }
        let k10 = find_hwmon_by_name(listing, "k10temp");
        let k10temp_dir = device_path(listing, k10);
        let d5 = find_hwmon_by_name(listing, "d5next");
        let d5_dir = device_path(listing, d5);
        let d5next_coolant = match d5_dir {
            Some(dir) => Some(join_path(dir.as_str(), "temp1_input")),
            None => None,
        };
        let needles: Vec<&str> = vec!["PHY", "MAC"];
        assert(needles@ == seq!["PHY", "MAC"]);
        let nic = find_hwmon_with_label(listing, needles.as_slice());
        let nic_dir = device_path(listing, nic);
        SensorPaths { k10temp_dir, d5next_coolant, nic_dir }
    }
}

/// Whether `f` is a CCD die temperature label of the k10temp driver.
pub fn is_tccd_label_file(f: &HwmonFile) -> (b: bool)
    ensures
        b == is_tccd_label(*f),
        b == (has_prefix(f.file_name@, "temp"@) && has_suffix(f.file_name@, "_label"@)
            && f.contents is Some && has_prefix(trim(f.contents->0@), "Tccd"@)),
{
    if !is_temp_label_file(f.file_name.as_str()) {
        return false;
    }
    match &f.contents {
        None => false,
        Some(text) => trimmed_starts_with(text.as_str(), "Tccd"),
    }
}

/// The input files to read for the CPU temperature: for each `temp*_label`
/// file of the k10temp directory whose trimmed text starts with `Tccd`, its
/// path with `_label` replaced by `_input`, in listing order.
pub fn tccd_input_paths(files: &Vec<HwmonFile>) -> (inputs: Vec<String>)
    ensures
        inputs@.map_values(|p: String| p@) == tccd_inputs(files@),
        inputs@.map_values(|p: String| p@) == files@.filter(ccd_label_filter()).map_values(
            |f: HwmonFile| input_path_of(f),
        ),
        inputs@.len() == files@.filter(ccd_label_filter()).len(),
        forall|j: int|
            0 <= j < files@.len() && is_tccd_label(#[trigger] files@[j]) ==> inputs@.map_values(
                |p: String| p@,
            ).contains(replace_all(files@[j].path@, "_label"@, "_input"@)),
{
    proof {
        lemma_tccd_inputs_every_ccd(files@);
    }
    let mut inputs: Vec<String> = Vec::new();
    let mut j: usize = 0;
    while j < files.len()
        invariant
            j <= files@.len(),
            inputs@.map_values(|p: String| p@) == tccd_inputs(files@.take(j as int)),
        decreases files@.len() - j,
    {
        let f = &files[j];
        let ghost before = inputs@;
        assert(files@.take(j + 1).drop_last() =~= files@.take(j as int));
        assert(files@.take(j + 1).last() == files@[j as int]);
        if is_tccd_label_file(f) {
            proof {
                reveal_strlit("_label");
            }
            let input = replace(f.path.as_str(), "_label", "_input");
            inputs.push(input);
            assert(inputs@.map_values(|p: String| p@) =~= before.map_values(|p: String| p@) + seq![
                replace_all(f.path@, "_label"@, "_input"@),
            ]);
        } else {
            assert(inputs@.map_values(|p: String| p@) =~= before.map_values(|p: String| p@)
                + Seq::<Seq<char>>::empty());
        }
        j = j + 1;
    }
    assert(files@.take(j as int) =~= files@);
    inputs
}

/// The two NIC temperature inputs (PHY and MAC) of the NIC hwmon directory.
pub fn nic_input_paths(nic_dir: &str) -> (inputs: (String, String))
    ensures
        inputs.0@ == join_spec(nic_dir@, "temp1_input"@),
        inputs.1@ == join_spec(nic_dir@, "temp2_input"@),
{
    proof {
        reveal_strlit("temp1_input");
        reveal_strlit("temp2_input");
    }
    (join_path(nic_dir, "temp1_input"), join_path(nic_dir, "temp2_input"))
}

} // verus!
