use vstd::prelude::*;

use crate::inputs::{added1, added2, added3, env_gains, lemma_env_value_stays, AllInputs, Bucket,
    Inputs, env_names, in_list, name_views, sorted_insert_view, sorted_remove_view};
use crate::utils::{SemVer, views};

verus! {

/// One resolved package of the compiled-language dependency graph: its name,
/// its resolved version, and the feature names enabled on it.
pub struct RustPackage {
    pub name: String,
    pub version: SemVer,
    pub features: Vec<String>,
}

/// One record of the lock-file model.
pub struct CargoPackage {
    pub name: String,
}

/// The lock-file model: the resolved package records.
pub struct CargoLock {
    pub package: Vec<CargoPackage>,
}

/// Whether a feature of this name is enabled.
pub fn has_feature(features: &Vec<String>, name: &str) -> (r: bool)
    ensures
        r == in_list(views(features@), name@),
{
    let n = features.len();
    let mut i: usize = 0;
    while i < n
        invariant
            n == features@.len(),
            i <= n,
            forall|j: int| 0 <= j < i ==> views(features@)[j] != name@,
        decreases n - i,
    {
        if crate::text::str_eq(features[i].as_str(), name) {
            proof {
                assert(views(features@)[i as int] == name@);
            }
            return true;
        }
        i += 1;
    }
    proof {
        if in_list(views(features@), name@) {
            let j = choose|j: int|
                0 <= j < views(features@).len() && views(features@)[j] == name@;
        }
    }
    false
}

/// The decimal numeral of a number.
pub open spec fn dec_view(n: nat) -> Seq<char>
    decreases n,
{
    if n < 10 {
        seq![((48 + n) as u8) as char]
    } else {
        dec_view(n / 10).push(((48 + n % 10) as u8) as char)
    }
}

/// Writes a number in decimal.
pub fn u64_dec(n: u64) -> (r: String)
    ensures
        r@ == dec_view(n as nat),
    decreases n,
{
    if n < 10 {
        let mut s = String::new();
        s.push((48 + n as u8) as char);
        proof {
            assert(s@ =~= seq![((48 + n as nat) as u8) as char]);
        }
        s
    } else {
        let mut s = u64_dec(n / 10);
        s.push((48 + (n % 10) as u8) as char);
        s
    }
}




/// What the windowing library's feature names pull in.
pub open spec fn x11_dep(f: Seq<char>) -> Option<Seq<char>> {
    if f == "glx"@ {
        Some("libGL"@)
    } else if f == "xlib"@ {
        Some("xorg.libX11"@)
    } else if f == "xlib_xcb"@ {
        Some("xorg.libX11"@)
    } else if f == "xcursor"@ {
        Some("xorg.libXcursor"@)
    } else if f == "dpms"@ {
        Some("xorg.libXext"@)
    } else if f == "xfixes"@ {
        Some("xorg.libXfixes"@)
    } else if f == "xft"@ {
        Some("xorg.libXft"@)
    } else if f == "xinput"@ {
        Some("xorg.libX1"@)
    } else if f == "xinerama"@ {
        Some("xorg.libXinerama"@)
    } else if f == "xmu"@ {
        Some("xorg.libXmu"@)
    } else if f == "xrandr"@ {
        Some("xorg.libXrandr"@)
    } else if f == "xrender"@ {
        Some("xorg.libXrender"@)
    } else if f == "xpresent"@ {
        Some("xorg.libXpresent"@)
    } else if f == "xss"@ {
        Some("xorg.libXScrnSaver"@)
    } else if f == "xt"@ {
        Some("xorg.libXt"@)
    } else if f == "xtst"@ {
        Some("xorg.libXtst"@)
    } else if f == "xf86vmode"@ {
        Some("xorg.libXxf86vm"@)
    } else {
        None
    }
}

/// What the windowing library's feature names pull in.
fn x11_feature_dep(f: &str) -> (r: Option<&'static str>)
    ensures
        match r {
            Some(d) => x11_dep(f@) == Some(d@),
            None => x11_dep(f@) is None,
        },
{
    if crate::text::str_eq(f, "glx") {
        Some("libGL")
    } else if crate::text::str_eq(f, "xlib") {
        Some("xorg.libX11")
    } else if crate::text::str_eq(f, "xlib_xcb") {
        Some("xorg.libX11")
    } else if crate::text::str_eq(f, "xcursor") {
        Some("xorg.libXcursor")
    } else if crate::text::str_eq(f, "dpms") {
        Some("xorg.libXext")
    } else if crate::text::str_eq(f, "xfixes") {
        Some("xorg.libXfixes")
    } else if crate::text::str_eq(f, "xft") {
        Some("xorg.libXft")
    } else if crate::text::str_eq(f, "xinput") {
        Some("xorg.libX1")
    } else if crate::text::str_eq(f, "xinerama") {
        Some("xorg.libXinerama")
    } else if crate::text::str_eq(f, "xmu") {
        Some("xorg.libXmu")
    } else if crate::text::str_eq(f, "xrandr") {
        Some("xorg.libXrandr")
    } else if crate::text::str_eq(f, "xrender") {
        Some("xorg.libXrender")
    } else if crate::text::str_eq(f, "xpresent") {
        Some("xorg.libXpresent")
    } else if crate::text::str_eq(f, "xss") {
        Some("xorg.libXScrnSaver")
    } else if crate::text::str_eq(f, "xt") {
        Some("xorg.libXt")
    } else if crate::text::str_eq(f, "xtst") {
        Some("xorg.libXtst")
    } else if crate::text::str_eq(f, "xf86vmode") {
        Some("xorg.libXxf86vm")
    } else {
        None
    }
}

/// The linux build bucket after filing each recognized feature's library.
pub open spec fn x11_fold(cur: Seq<Seq<char>>, feats: Seq<Seq<char>>) -> Seq<Seq<char>>
    decreases feats.len(),
{
    if feats.len() == 0 {
        cur
    } else {
        x11_fold(
            match x11_dep(feats[0]) {
                Some(d) => sorted_insert_view(cur, d),
                None => cur,
            },
            feats.skip(1),
        )
    }
}

/// Files the windowing library's per-feature system libraries, linux only.
fn load_x11_features(inputs: &mut AllInputs, features: &Vec<String>)
    requires
        old(inputs).wf(),
    ensures
        final(inputs).wf(),
        final(inputs).native_build_inputs == old(inputs).native_build_inputs,
        final(inputs).env == old(inputs).env,
        final(inputs).build_inputs.bucket_view(Bucket::Linux) == x11_fold(
            old(inputs).build_inputs.bucket_view(Bucket::Linux),
            views(features@),
        ),
        forall|c: Bucket|
            c != Bucket::Linux ==> final(inputs).build_inputs.bucket_view(c) == old(
                inputs,
            ).build_inputs.bucket_view(c),
{
    let ghost fs = views(features@);
    let n = features.len();
    let mut i: usize = 0;
    proof {
        assert(fs.skip(0) =~= fs);
    }
    while i < n
        invariant
            n == features@.len(),
            fs == views(features@),
            i <= n,
            inputs.wf(),
            inputs.native_build_inputs == old(inputs).native_build_inputs,
            inputs.env == old(inputs).env,
            x11_fold(old(inputs).build_inputs.bucket_view(Bucket::Linux), fs) == x11_fold(
                inputs.build_inputs.bucket_view(Bucket::Linux),
                fs.skip(i as int),
            ),
            forall|c: Bucket|
                c != Bucket::Linux ==> inputs.build_inputs.bucket_view(c) == old(
                    inputs,
                ).build_inputs.bucket_view(c),
        decreases n - i,
    {
        proof {
            assert(fs.skip(i as int)[0] == fs[i as int]);
            assert(fs.skip(i as int).skip(1) =~= fs.skip(i + 1));
        }
        if let Some(dep) = x11_feature_dep(features[i].as_str()) {
            inputs.build_on(Bucket::Linux, dep);
        }
        i += 1;
    }
    proof {
        assert(fs.skip(n as int).len() == 0);
    }
}

/// What the table does for one package: which names land in which buckets of
/// which set, and which variables the environment gains.
pub open spec fn rust_dep_applied(o: AllInputs, n: AllInputs, pkg: &RustPackage) -> bool {
    let nm = pkg.name@;
    if nm == "alsa-sys"@ {
        n.native_build_inputs == o.native_build_inputs && added1(o.build_inputs, n.build_inputs, Bucket::Linux, "alsa-lib"@) && n.env == o.env
    } else if nm == "arboard"@ {
        n.native_build_inputs == o.native_build_inputs && added1(o.build_inputs, n.build_inputs, Bucket::Darwin, "darwin.apple_sdk.frameworks."@ + "AppKit"@) && n.env == o.env
    } else if nm == "ash"@ {
        n.native_build_inputs == o.native_build_inputs && added1(o.build_inputs, n.build_inputs, Bucket::Always, "vulkan-loader"@) && n.env == o.env
    } else if nm == "atk-sys"@ {
        n.native_build_inputs == o.native_build_inputs && added1(o.build_inputs, n.build_inputs, Bucket::Always, "atk"@) && n.env == o.env
    } else if nm == "bindgen"@ {
        added1(o.native_build_inputs, n.native_build_inputs, Bucket::Always, "rustPlatform.bindgenHook"@) && n.build_inputs == o.build_inputs && n.env == o.env
    } else if nm == "bzip2-sys"@ {
        n.native_build_inputs == o.native_build_inputs && added1(o.build_inputs, n.build_inputs, Bucket::Always, "bzip2"@) && n.env == o.env
    } else if nm == "cairo-sys-rs"@ {
        n.native_build_inputs == o.native_build_inputs && added1(o.build_inputs, n.build_inputs, Bucket::Always, "cairo"@) && n.env == o.env
    } else if nm == "clipboard"@ {
        n.native_build_inputs == o.native_build_inputs && added1(o.build_inputs, n.build_inputs, Bucket::Darwin, "darwin.apple_sdk.frameworks."@ + "AppKit"@) && n.env == o.env
    } else if nm == "cocoa"@ {
        n.native_build_inputs == o.native_build_inputs && added1(o.build_inputs, n.build_inputs, Bucket::Darwin, "darwin.apple_sdk.frameworks."@ + "AppKit"@) && n.env == o.env
    } else if nm == "cocoa-foundation"@ {
        n.native_build_inputs == o.native_build_inputs && added1(o.build_inputs, n.build_inputs, Bucket::Darwin, "darwin.apple_sdk.frameworks."@ + "Foundation"@) && n.env == o.env
    } else if nm == "copypasta"@ {
        n.native_build_inputs == o.native_build_inputs && added1(o.build_inputs, n.build_inputs, Bucket::Darwin, "darwin.apple_sdk.frameworks."@ + "AppKit"@) && n.env == o.env
    } else if nm == "core-graphics-types"@ {
        n.native_build_inputs == o.native_build_inputs && added1(o.build_inputs, n.build_inputs, Bucket::Darwin, "darwin.apple_sdk.frameworks."@ + "CoreGraphics"@) && n.env == o.env
    } else if nm == "core-text"@ {
        n.native_build_inputs == o.native_build_inputs && added1(o.build_inputs, n.build_inputs, Bucket::Darwin, "darwin.apple_sdk.frameworks."@ + "CoreText"@) && n.env == o.env
    } else if nm == "coreaudio-sys"@ {
        n.native_build_inputs == o.native_build_inputs && added1(o.build_inputs, n.build_inputs, Bucket::Darwin, "darwin.apple_sdk.frameworks."@ + "CoreAudio"@) && n.env == o.env
    } else if nm == "curl-sys"@ {
        added1(o.native_build_inputs, n.native_build_inputs, Bucket::Always, "curl"@) && added1(o.build_inputs, n.build_inputs, Bucket::Always, "curl"@) && n.env == o.env
    } else if nm == "evdev-sys"@ {
        n.native_build_inputs == o.native_build_inputs && added1(o.build_inputs, n.build_inputs, Bucket::Always, "evdev-sys"@) && n.env == o.env
    } else if nm == "expat-sys"@ {
        n.native_build_inputs == o.native_build_inputs && added1(o.build_inputs, n.build_inputs, Bucket::Always, "expat"@) && n.env == o.env
    } else if nm == "freetype-sys"@ {
        n.native_build_inputs == o.native_build_inputs && added1(o.build_inputs, n.build_inputs, Bucket::Always, "freetype"@) && n.env == o.env
    } else if nm == "fsevent-sys"@ {
        n.native_build_inputs == o.native_build_inputs && added2(o.build_inputs, n.build_inputs, Bucket::Darwin, "darwin.apple_sdk.frameworks."@ + "CoreFoundation"@, Bucket::Darwin, "darwin.apple_sdk.frameworks."@ + "CoreServices"@) && n.env == o.env
    } else if nm == "gdk-pixbuf-sys"@ {
        n.native_build_inputs == o.native_build_inputs && added1(o.build_inputs, n.build_inputs, Bucket::Always, "gdk-pixbuf"@) && n.env == o.env
    } else if nm == "gdk-sys"@ {
        n.native_build_inputs == o.native_build_inputs && added1(o.build_inputs, n.build_inputs, Bucket::Always, "gtk3"@) && n.env == o.env
    } else if nm == "gdk4-sys"@ {
        n.native_build_inputs == o.native_build_inputs && added1(o.build_inputs, n.build_inputs, Bucket::Always, "gtk4"@) && n.env == o.env
    } else if nm == "glib-sys"@ {
        n.native_build_inputs == o.native_build_inputs && added1(o.build_inputs, n.build_inputs, Bucket::Always, "glib"@) && n.env == o.env
    } else if nm == "gpgme-sys"@ {
        added1(o.native_build_inputs, n.native_build_inputs, Bucket::Always, "gpgme"@) && added1(o.build_inputs, n.build_inputs, Bucket::Always, "gpgme"@) && n.env == o.env
    } else if nm == "gsk4-sys"@ {
        n.native_build_inputs == o.native_build_inputs && added1(o.build_inputs, n.build_inputs, Bucket::Always, "gtk4"@) && n.env == o.env
    } else if nm == "gstreamer-allocators-sys"@ {
        n.native_build_inputs == o.native_build_inputs && added1(o.build_inputs, n.build_inputs, Bucket::Always, "gst_all_1."@ + "gst-plugins-base"@) && n.env == o.env
    } else if nm == "gstreamer-app-sys"@ {
        n.native_build_inputs == o.native_build_inputs && added1(o.build_inputs, n.build_inputs, Bucket::Always, "gst_all_1."@ + "gst-plugins-base"@) && n.env == o.env
    } else if nm == "gstreamer-audio-sys"@ {
        n.native_build_inputs == o.native_build_inputs && added1(o.build_inputs, n.build_inputs, Bucket::Always, "gst_all_1."@ + "gst-plugins-base"@) && n.env == o.env
    } else if nm == "gstreamer-base-sys"@ {
        n.native_build_inputs == o.native_build_inputs && added1(o.build_inputs, n.build_inputs, Bucket::Always, "gst_all_1."@ + "gstreamer"@) && n.env == o.env
    } else if nm == "gstreamer-check-sys"@ {
        n.native_build_inputs == o.native_build_inputs && added1(o.build_inputs, n.build_inputs, Bucket::Always, "gst_all_1."@ + "gstreamer"@) && n.env == o.env
    } else if nm == "gstreamer-controller-sys"@ {
        n.native_build_inputs == o.native_build_inputs && added1(o.build_inputs, n.build_inputs, Bucket::Always, "gst_all_1."@ + "gstreamer"@) && n.env == o.env
    } else if nm == "gstreamer-editing-services-sys"@ {
        n.native_build_inputs == o.native_build_inputs && added1(o.build_inputs, n.build_inputs, Bucket::Always, "gst_all_1."@ + "gst-editing-services"@) && n.env == o.env
    } else if nm == "gstreamer-gl-sys"@ {
        n.native_build_inputs == o.native_build_inputs && added1(o.build_inputs, n.build_inputs, Bucket::Always, "gst_all_1."@ + "gst-plugins-base"@) && n.env == o.env
    } else if nm == "gstreamer-mpegts-sys"@ {
        n.native_build_inputs == o.native_build_inputs && added1(o.build_inputs, n.build_inputs, Bucket::Always, "gst_all_1."@ + "gst-plugins-bad"@) && n.env == o.env
    } else if nm == "gstreamer-net-sys"@ {
        n.native_build_inputs == o.native_build_inputs && added1(o.build_inputs, n.build_inputs, Bucket::Always, "gst_all_1."@ + "gstreamer"@) && n.env == o.env
    } else if nm == "gstreamer-pbutils-sys"@ {
        n.native_build_inputs == o.native_build_inputs && added1(o.build_inputs, n.build_inputs, Bucket::Always, "gst_all_1."@ + "gst-plugins-base"@) && n.env == o.env
    } else if nm == "gstreamer-play-sys"@ {
        n.native_build_inputs == o.native_build_inputs && added1(o.build_inputs, n.build_inputs, Bucket::Always, "gst_all_1."@ + "gst-plugins-bad"@) && n.env == o.env
    } else if nm == "gstreamer-player-sys"@ {
        n.native_build_inputs == o.native_build_inputs && added1(o.build_inputs, n.build_inputs, Bucket::Always, "gst_all_1."@ + "gst-plugins-bad"@) && n.env == o.env
    } else if nm == "gstreamer-rtp-sys"@ {
        n.native_build_inputs == o.native_build_inputs && added1(o.build_inputs, n.build_inputs, Bucket::Always, "gst_all_1."@ + "gst-plugins-base"@) && n.env == o.env
    } else if nm == "gstreamer-rtsp-server-sys"@ {
        n.native_build_inputs == o.native_build_inputs && added1(o.build_inputs, n.build_inputs, Bucket::Always, "gst_all_1."@ + "gst-rtsp-server"@) && n.env == o.env
    } else if nm == "gstreamer-rtsp-sys"@ {
        n.native_build_inputs == o.native_build_inputs && added1(o.build_inputs, n.build_inputs, Bucket::Always, "gst_all_1."@ + "gst-plugins-base"@) && n.env == o.env
    } else if nm == "gstreamer-sdp-sys"@ {
        n.native_build_inputs == o.native_build_inputs && added1(o.build_inputs, n.build_inputs, Bucket::Always, "gst_all_1."@ + "gst-plugins-base"@) && n.env == o.env
    } else if nm == "gstreamer-sys"@ {
        n.native_build_inputs == o.native_build_inputs && added1(o.build_inputs, n.build_inputs, Bucket::Always, "gst_all_1."@ + "gstreamer"@) && n.env == o.env
    } else if nm == "gstreamer-tag-sys"@ {
        n.native_build_inputs == o.native_build_inputs && added1(o.build_inputs, n.build_inputs, Bucket::Always, "gst_all_1."@ + "gst-plugins-base"@) && n.env == o.env
    } else if nm == "gstreamer-validate-sys"@ {
        n.native_build_inputs == o.native_build_inputs && added1(o.build_inputs, n.build_inputs, Bucket::Always, "gst_all_1."@ + "gst-devtools"@) && n.env == o.env
    } else if nm == "gstreamer-video-sys"@ {
        n.native_build_inputs == o.native_build_inputs && added1(o.build_inputs, n.build_inputs, Bucket::Always, "gst_all_1."@ + "gst-plugins-base"@) && n.env == o.env
    } else if nm == "gstreamer-webrtc-sys"@ {
        n.native_build_inputs == o.native_build_inputs && added1(o.build_inputs, n.build_inputs, Bucket::Always, "gst_all_1."@ + "gst-plugins-bad"@) && n.env == o.env
    } else if nm == "gtk-sys"@ {
        added1(o.native_build_inputs, n.native_build_inputs, Bucket::Always, "wrapGAppsHook"@) && added1(o.build_inputs, n.build_inputs, Bucket::Always, "gtk3"@) && n.env == o.env
    } else if nm == "gtk4-sys"@ {
        added1(o.native_build_inputs, n.native_build_inputs, Bucket::Always, "wrapGAppsHook4"@) && added1(o.build_inputs, n.build_inputs, Bucket::Always, "gtk4"@) && n.env == o.env
    } else if nm == "io-kit-sys"@ {
        n.native_build_inputs == o.native_build_inputs && added1(o.build_inputs, n.build_inputs, Bucket::Darwin, "darwin.apple_sdk.frameworks."@ + "IOKit"@) && n.env == o.env
    } else if nm == "io-surface"@ {
        n.native_build_inputs == o.native_build_inputs && added1(o.build_inputs, n.build_inputs, Bucket::Always, "IOSurface"@) && n.env == o.env
    } else if nm == "libadwaita-sys"@ {
        n.native_build_inputs == o.native_build_inputs && added1(o.build_inputs, n.build_inputs, Bucket::Always, "libadwaita"@) && n.env == o.env
    } else if nm == "libdbus-sys"@ {
        n.native_build_inputs == o.native_build_inputs && added1(o.build_inputs, n.build_inputs, Bucket::Always, "dbus"@) && n.env == o.env
    } else if nm == "libgit2-sys"@ {
        n.native_build_inputs == o.native_build_inputs && added1(o.build_inputs, n.build_inputs, Bucket::Always, "libgit2"@) && n.env == o.env
    } else if nm == "libgpg-error-sys"@ {
        added1(o.native_build_inputs, n.native_build_inputs, Bucket::Always, "libgpg-error"@) && added1(o.build_inputs, n.build_inputs, Bucket::Always, "libgpg-error"@) && n.env == o.env
    } else if nm == "libhandy-sys"@ {
        added1(o.build_inputs, n.build_inputs, Bucket::Always, (if pkg.version.spec_before_release(0, 7, 0) {
                "libhandy_0"@
            } else {
                "libhandy"@
            })) && n.native_build_inputs == o.native_build_inputs && n.env == o.env
    } else if nm == "libpanel-sys"@ {
        n.native_build_inputs == o.native_build_inputs && added1(o.build_inputs, n.build_inputs, Bucket::Always, "libpanel"@) && n.env == o.env
    } else if nm == "libpulse-sys"@ {
        n.native_build_inputs == o.native_build_inputs && added1(o.build_inputs, n.build_inputs, Bucket::Always, "libpulseaudio"@) && n.env == o.env
    } else if nm == "librocksdb-sys"@ {
        &&& n.native_build_inputs == o.native_build_inputs
        &&& (if in_list(views(pkg.features@), "io-uring"@) {
            added1(o.build_inputs, n.build_inputs, Bucket::Linux, "liburing"@)
        } else {
            n.build_inputs == o.build_inputs
        })
        &&& (exists|i: int|
            0 <= i < n.env@.len() && #[trigger] n.env@[i].name@ == "ROCKSDB_INCLUDE_DIR"@
                && n.env@[i].value@ == "\"${rocksdb}/include\""@)
        &&& (exists|i: int|
            0 <= i < n.env@.len() && #[trigger] n.env@[i].name@ == "ROCKSDB_LIB_DIR"@
                && n.env@[i].value@ == "\"${rocksdb}/lib\""@)
        &&& (forall|x: Seq<char>|
            in_list(env_names(n.env@), x) <==> in_list(env_names(o.env@), x) || x
                == "ROCKSDB_INCLUDE_DIR"@ || x == "ROCKSDB_LIB_DIR"@)
    } else if nm == "libsecret-sys"@ {
        n.native_build_inputs == o.native_build_inputs && added1(o.build_inputs, n.build_inputs, Bucket::Always, "libsecret"@) && n.env == o.env
    } else if nm == "libshumate-sys"@ {
        n.native_build_inputs == o.native_build_inputs && added1(o.build_inputs, n.build_inputs, Bucket::Always, "libshumate"@) && n.env == o.env
    } else if nm == "libsodium-sys"@ || nm == "libsodium-sys-stable"@ {
        added1(o.build_inputs, n.build_inputs, Bucket::Always, "libsodium"@)
                && n.native_build_inputs == o.native_build_inputs && (if !in_list(
                views(pkg.features@),
                "use-pkg-config"@,
            ) {
                env_gains(o.env@, n.env@, "SODIUM_USE_PKG_CONFIG"@, "true"@)
            } else {
                n.env == o.env
            })
    } else if nm == "libspa-sys"@ {
        n.native_build_inputs == o.native_build_inputs && added1(o.build_inputs, n.build_inputs, Bucket::Always, "pipewire"@) && n.env == o.env
    } else if nm == "libsqlite3-sys"@ {
        n.native_build_inputs == o.native_build_inputs && added1(o.build_inputs, n.build_inputs, Bucket::Always, "sqlite"@) && n.env == o.env
    } else if nm == "libudev-sys"@ {
        n.native_build_inputs == o.native_build_inputs && added1(o.build_inputs, n.build_inputs, Bucket::Always, "udev"@) && n.env == o.env
    } else if nm == "libusb1-sys"@ {
        n.native_build_inputs == o.native_build_inputs && added1(o.build_inputs, n.build_inputs, Bucket::Always, "libusb"@) && n.env == o.env
    } else if nm == "libxml"@ {
        n.native_build_inputs == o.native_build_inputs && added1(o.build_inputs, n.build_inputs, Bucket::Always, "libxml2"@) && n.env == o.env
    } else if nm == "libz-sys"@ {
        n.native_build_inputs == o.native_build_inputs && n.env == o.env && (if in_list(
                views(pkg.features@),
                "static"@,
            ) {
                n.build_inputs == o.build_inputs
            } else if in_list(views(pkg.features@), "stock-zlib"@) || !in_list(
                views(pkg.features@),
                "zlib-ng"@,
            ) {
                added1(o.build_inputs, n.build_inputs, Bucket::Always, "zlib"@)
            } else {
                n.build_inputs == o.build_inputs
            })
    } else if nm == "llvm-sys"@ {
        added3(o.build_inputs, n.build_inputs, "libxml2"@, "ncurses"@, "zlib"@)
                && n.native_build_inputs == o.native_build_inputs && env_gains(
                o.env@,
                n.env@,
                "LLVM_SYS_"@ + dec_view(pkg.version.major as nat) + "_PREFIX"@,
                "llvmPackages_"@ + dec_view((pkg.version.major / 10) as nat) + ".llvm.dev"@,
            )
    } else if nm == "locate-dwarf"@ {
        n.native_build_inputs == o.native_build_inputs && added1(o.build_inputs, n.build_inputs, Bucket::Darwin, "darwin.apple_sdk.frameworks."@ + "CoreServices"@) && n.env == o.env
    } else if nm == "lzma-sys"@ {
        n.native_build_inputs == o.native_build_inputs && added1(o.build_inputs, n.build_inputs, Bucket::Always, "xz"@) && n.env == o.env
    } else if nm == "metal"@ {
        n.native_build_inputs == o.native_build_inputs && added1(o.build_inputs, n.build_inputs, Bucket::Darwin, "darwin.apple_sdk.frameworks."@ + "Metal"@) && n.env == o.env
    } else if nm == "ncurses"@ {
        n.native_build_inputs == o.native_build_inputs && added1(o.build_inputs, n.build_inputs, Bucket::Always, "ncurses"@) && n.env == o.env
    } else if nm == "nettle-sys"@ {
        n.native_build_inputs == o.native_build_inputs && added1(o.build_inputs, n.build_inputs, Bucket::Always, "nettle"@) && n.env == o.env
    } else if nm == "onig_sys"@ {
        added1(o.build_inputs, n.build_inputs, Bucket::Always, "oniguruma"@)
                && n.native_build_inputs == o.native_build_inputs && env_gains(
                o.env@,
                n.env@,
                "RUSTONIG_SYSTEM_LIBONIG"@,
                "true"@,
            )
    } else if nm == "openssl-sys"@ {
        added2(o.build_inputs, n.build_inputs, Bucket::Always, "openssl"@, Bucket::Darwin, "darwin.apple_sdk.frameworks."@
                + "Security"@) && n.native_build_inputs == o.native_build_inputs && (if in_list(
                views(pkg.features@),
                "vendored"@,
            ) {
                env_gains(o.env@, n.env@, "OPENSSL_NO_VENDOR"@, "true"@)
            } else {
                n.env == o.env
            })
    } else if nm == "pam-sys"@ {
        n.native_build_inputs == o.native_build_inputs && added1(o.build_inputs, n.build_inputs, Bucket::Always, "pam"@) && n.env == o.env
    } else if nm == "pango-sys"@ {
        n.native_build_inputs == o.native_build_inputs && added1(o.build_inputs, n.build_inputs, Bucket::Always, "pango"@) && n.env == o.env
    } else if nm == "pipewire-sys"@ {
        n.native_build_inputs == o.native_build_inputs && added1(o.build_inputs, n.build_inputs, Bucket::Always, "pipewire"@) && n.env == o.env
    } else if nm == "pkg-config"@ {
        added1(o.native_build_inputs, n.native_build_inputs, Bucket::Always, "pkg-config"@) && n.build_inputs == o.build_inputs && n.env == o.env
    } else if nm == "poppler-sys-rs"@ {
        n.native_build_inputs == o.native_build_inputs && added1(o.build_inputs, n.build_inputs, Bucket::Always, "poppler"@) && n.env == o.env
    } else if nm == "pq-sys"@ {
        n.native_build_inputs == o.native_build_inputs && added1(o.build_inputs, n.build_inputs, Bucket::Always, "postgresql"@) && n.env == o.env
    } else if nm == "prost-build"@ {
        added1(o.native_build_inputs, n.native_build_inputs, Bucket::Always, "protobuf"@) && n.build_inputs == o.build_inputs && n.env == o.env
    } else if nm == "rdkafka-sys"@ {
        n.native_build_inputs == o.native_build_inputs && added1(o.build_inputs, n.build_inputs, Bucket::Always, "rdkafka"@) && n.env == o.env
    } else if nm == "readkey"@ {
        n.native_build_inputs == o.native_build_inputs && added1(o.build_inputs, n.build_inputs, Bucket::Darwin, "darwin.apple_sdk.frameworks."@ + "AppKit"@) && n.env == o.env
    } else if nm == "readmouse"@ {
        n.native_build_inputs == o.native_build_inputs && added1(o.build_inputs, n.build_inputs, Bucket::Darwin, "darwin.apple_sdk.frameworks."@ + "AppKit"@) && n.env == o.env
    } else if nm == "ring"@ {
        n.native_build_inputs == o.native_build_inputs && added1(o.build_inputs, n.build_inputs, Bucket::Darwin, "darwin.apple_sdk.frameworks."@ + "Security"@) && n.env == o.env
    } else if nm == "security-framework-sys"@ {
        n.native_build_inputs == o.native_build_inputs && added1(o.build_inputs, n.build_inputs, Bucket::Darwin, "darwin.apple_sdk.frameworks."@ + "Security"@) && n.env == o.env
    } else if nm == "servo-fontconfig-sys"@ {
        n.native_build_inputs == o.native_build_inputs && added1(o.build_inputs, n.build_inputs, Bucket::Always, "fontconfig"@) && n.env == o.env
    } else if nm == "smithay-client-toolkit"@ {
        n.native_build_inputs == o.native_build_inputs && added1(o.build_inputs, n.build_inputs, Bucket::Always, "libxkbcommon"@) && n.env == o.env
    } else if nm == "soup-sys"@ {
        n.native_build_inputs == o.native_build_inputs && added1(o.build_inputs, n.build_inputs, Bucket::Always, "libsoup"@) && n.env == o.env
    } else if nm == "soup2-sys"@ {
        n.native_build_inputs == o.native_build_inputs && added1(o.build_inputs, n.build_inputs, Bucket::Always, "libsoup"@) && n.env == o.env
    } else if nm == "soup3-sys"@ {
        n.native_build_inputs == o.native_build_inputs && added1(o.build_inputs, n.build_inputs, Bucket::Always, "libsoup_3"@) && n.env == o.env
    } else if nm == "sourceview5-sys"@ {
        n.native_build_inputs == o.native_build_inputs && added1(o.build_inputs, n.build_inputs, Bucket::Always, "gtksourceview5"@) && n.env == o.env
    } else if nm == "spirv-tools-sys"@ {
        n.native_build_inputs == o.native_build_inputs && added1(o.build_inputs, n.build_inputs, Bucket::Always, "spirv-tools"@) && n.env == o.env
    } else if nm == "sys-locale"@ {
        n.native_build_inputs == o.native_build_inputs && added1(o.build_inputs, n.build_inputs, Bucket::Darwin, "darwin.apple_sdk.frameworks."@ + "CoreFoundation"@) && n.env == o.env
    } else if nm == "sysinfo"@ {
        n.native_build_inputs == o.native_build_inputs && added1(o.build_inputs, n.build_inputs, Bucket::Darwin, "darwin.apple_sdk.frameworks."@ + "IOKit"@) && n.env == o.env
    } else if nm == "wayland-sys"@ {
        n.native_build_inputs == o.native_build_inputs && added1(o.build_inputs, n.build_inputs, Bucket::Linux, "wayland"@) && n.env == o.env
    } else if nm == "webkit2gtk-sys"@ {
        n.native_build_inputs == o.native_build_inputs && added1(o.build_inputs, n.build_inputs, Bucket::Always, "webkitgtk"@) && n.env == o.env
    } else if nm == "webkit2gtk-webextension-sys"@ {
        n.native_build_inputs == o.native_build_inputs && added1(o.build_inputs, n.build_inputs, Bucket::Always, "webkitgtk"@) && n.env == o.env
    } else if nm == "webkit2gtk5-sys"@ {
        n.native_build_inputs == o.native_build_inputs && added1(o.build_inputs, n.build_inputs, Bucket::Always, "webkitgtk_5_0"@) && n.env == o.env
    } else if nm == "webkit2gtk5-webextension-sys"@ {
        n.native_build_inputs == o.native_build_inputs && added1(o.build_inputs, n.build_inputs, Bucket::Always, "webkitgtk_5_0"@) && n.env == o.env
    } else if nm == "wgpu-hal"@ {
        n.native_build_inputs == o.native_build_inputs && added1(o.build_inputs, n.build_inputs, Bucket::Darwin, "darwin.apple_sdk.frameworks."@ + "QuartzCore"@) && n.env == o.env
    } else if nm == "whoami"@ {
        n.native_build_inputs == o.native_build_inputs && added2(o.build_inputs, n.build_inputs, Bucket::Darwin, "darwin.apple_sdk.frameworks."@ + "CoreFoundation"@, Bucket::Darwin, "darwin.apple_sdk.frameworks."@ + "SystemConfiguration"@) && n.env == o.env
    } else if nm == "wholesym"@ {
        n.native_build_inputs == o.native_build_inputs && added1(o.build_inputs, n.build_inputs, Bucket::Darwin, "darwin.apple_sdk.frameworks."@ + "CoreServices"@) && n.env == o.env
    } else if nm == "wireplumber"@ {
        n.native_build_inputs == o.native_build_inputs && added1(o.build_inputs, n.build_inputs, Bucket::Always, "wireplumber"@) && n.env == o.env
    } else if nm == "x11"@ {
        n.native_build_inputs == o.native_build_inputs && n.env == o.env
                && n.build_inputs.bucket_view(Bucket::Linux) == x11_fold(
                o.build_inputs.bucket_view(Bucket::Linux),
                views(pkg.features@),
            ) && (forall|c: Bucket|
                c != Bucket::Linux ==> n.build_inputs.bucket_view(c) == o.build_inputs.bucket_view(
                    c,
                ))
    } else if nm == "xcb"@ {
        added1(o.build_inputs, n.build_inputs, Bucket::Linux, "xorg.libxcb"@) && n.env == o.env
                && (if pkg.version.spec_before_release(0, 10, 0) {
                added1(o.native_build_inputs, n.native_build_inputs, Bucket::Linux, "python3"@)
            } else {
                n.native_build_inputs == o.native_build_inputs
            })
    } else if nm == "xkbcommon"@ {
        n.native_build_inputs == o.native_build_inputs && added1(o.build_inputs, n.build_inputs, Bucket::Always, "libxkbcommon"@) && n.env == o.env
    } else if nm == "xkbcommon-sys"@ {
        n.native_build_inputs == o.native_build_inputs && added1(o.build_inputs, n.build_inputs, Bucket::Always, "libxkbcommon"@) && n.env == o.env
    } else if nm == "yeslogic-fontconfig-sys"@ {
        n.native_build_inputs == o.native_build_inputs && added1(o.build_inputs, n.build_inputs, Bucket::Always, "fontconfig"@) && n.env == o.env
    } else if nm == "zmq-sys"@ {
        n.native_build_inputs == o.native_build_inputs && added1(o.build_inputs, n.build_inputs, Bucket::Always, "zeromq"@) && n.env == o.env
    } else if nm == "zstd-sys"@ {
        n.native_build_inputs == o.native_build_inputs && (if in_list(
                views(pkg.features@),
                "pkg-config"@,
            ) {
                added1(o.build_inputs, n.build_inputs, Bucket::Always, "zstd"@) && n.env == o.env
            } else if !pkg.version.spec_before_release(2, 0, 5) {
                added1(o.build_inputs, n.build_inputs, Bucket::Always, "zstd"@) && env_gains(
                    o.env@,
                    n.env@,
                    "ZSTD_SYS_USE_PKG_CONFIG"@,
                    "true"@,
                )
            } else {
                n == o
            })
    } else {
        n == o
    }
}

/// Maps one resolved package onto its build inputs, honoring the feature
/// flags and version thresholds the table carries.  An unknown package
/// changes nothing: partial mapping is the accepted steady state.
#[verifier::rlimit(100)]
#[verifier::spinoff_prover]
pub fn load_rust_dependency(inputs: &mut AllInputs, pkg: &RustPackage)
    requires
        old(inputs).wf(),
    ensures
        final(inputs).wf(),
        rust_dep_applied(*old(inputs), *final(inputs), pkg),
{
    let name = pkg.name.as_str();
    if crate::text::str_eq(name, "alsa-sys") {
        inputs.build_on(Bucket::Linux, "alsa-lib");
    } else if crate::text::str_eq(name, "arboard") {
        inputs.framework("AppKit");
    } else if crate::text::str_eq(name, "ash") {
        inputs.build("vulkan-loader");
    } else if crate::text::str_eq(name, "atk-sys") {
        inputs.build("atk");
    } else if crate::text::str_eq(name, "bindgen") {
        inputs.native("rustPlatform.bindgenHook");
    } else if crate::text::str_eq(name, "bzip2-sys") {
        inputs.build("bzip2");
    } else if crate::text::str_eq(name, "cairo-sys-rs") {
        inputs.build("cairo");
    } else if crate::text::str_eq(name, "clipboard") {
        inputs.framework("AppKit");
    } else if crate::text::str_eq(name, "cocoa") {
        inputs.framework("AppKit");
    } else if crate::text::str_eq(name, "cocoa-foundation") {
        inputs.framework("Foundation");
    } else if crate::text::str_eq(name, "copypasta") {
        inputs.framework("AppKit");
    } else if crate::text::str_eq(name, "core-graphics-types") {
        inputs.framework("CoreGraphics");
    } else if crate::text::str_eq(name, "core-text") {
        inputs.framework("CoreText");
    } else if crate::text::str_eq(name, "coreaudio-sys") {
        inputs.framework("CoreAudio");
    } else if crate::text::str_eq(name, "curl-sys") {
        inputs.native("curl");
        inputs.build("curl");
    } else if crate::text::str_eq(name, "evdev-sys") {
        inputs.build("evdev-sys");
    } else if crate::text::str_eq(name, "expat-sys") {
        inputs.build("expat");
    } else if crate::text::str_eq(name, "freetype-sys") {
        inputs.build("freetype");
    } else if crate::text::str_eq(name, "fsevent-sys") {
        inputs.framework("CoreFoundation");
        inputs.framework("CoreServices");
    } else if crate::text::str_eq(name, "gdk-pixbuf-sys") {
        inputs.build("gdk-pixbuf");
    } else if crate::text::str_eq(name, "gdk-sys") {
        inputs.build("gtk3");
    } else if crate::text::str_eq(name, "gdk4-sys") {
        inputs.build("gtk4");
    } else if crate::text::str_eq(name, "glib-sys") {
        inputs.build("glib");
    } else if crate::text::str_eq(name, "gpgme-sys") {
        inputs.native("gpgme");
        inputs.build("gpgme");
    } else if crate::text::str_eq(name, "gsk4-sys") {
        inputs.build("gtk4");
    } else if crate::text::str_eq(name, "gstreamer-allocators-sys") {
        inputs.gst("gst-plugins-base");
    } else if crate::text::str_eq(name, "gstreamer-app-sys") {
        inputs.gst("gst-plugins-base");
    } else if crate::text::str_eq(name, "gstreamer-audio-sys") {
        inputs.gst("gst-plugins-base");
    } else if crate::text::str_eq(name, "gstreamer-base-sys") {
        inputs.gst("gstreamer");
    } else if crate::text::str_eq(name, "gstreamer-check-sys") {
        inputs.gst("gstreamer");
    } else if crate::text::str_eq(name, "gstreamer-controller-sys") {
        inputs.gst("gstreamer");
    } else if crate::text::str_eq(name, "gstreamer-editing-services-sys") {
        inputs.gst("gst-editing-services");
    } else if crate::text::str_eq(name, "gstreamer-gl-sys") {
        inputs.gst("gst-plugins-base");
    } else if crate::text::str_eq(name, "gstreamer-mpegts-sys") {
        inputs.gst("gst-plugins-bad");
    } else if crate::text::str_eq(name, "gstreamer-net-sys") {
        inputs.gst("gstreamer");
    } else if crate::text::str_eq(name, "gstreamer-pbutils-sys") {
        inputs.gst("gst-plugins-base");
    } else if crate::text::str_eq(name, "gstreamer-play-sys") {
        inputs.gst("gst-plugins-bad");
    } else if crate::text::str_eq(name, "gstreamer-player-sys") {
        inputs.gst("gst-plugins-bad");
    } else if crate::text::str_eq(name, "gstreamer-rtp-sys") {
        inputs.gst("gst-plugins-base");
    } else if crate::text::str_eq(name, "gstreamer-rtsp-server-sys") {
        inputs.gst("gst-rtsp-server");
    } else if crate::text::str_eq(name, "gstreamer-rtsp-sys") {
        inputs.gst("gst-plugins-base");
    } else if crate::text::str_eq(name, "gstreamer-sdp-sys") {
        inputs.gst("gst-plugins-base");
    } else if crate::text::str_eq(name, "gstreamer-sys") {
        inputs.gst("gstreamer");
    } else if crate::text::str_eq(name, "gstreamer-tag-sys") {
        inputs.gst("gst-plugins-base");
    } else if crate::text::str_eq(name, "gstreamer-validate-sys") {
        inputs.gst("gst-devtools");
    } else if crate::text::str_eq(name, "gstreamer-video-sys") {
        inputs.gst("gst-plugins-base");
    } else if crate::text::str_eq(name, "gstreamer-webrtc-sys") {
        inputs.gst("gst-plugins-bad");
    } else if crate::text::str_eq(name, "gtk-sys") {
        inputs.native("wrapGAppsHook");
        inputs.build("gtk3");
    } else if crate::text::str_eq(name, "gtk4-sys") {
        inputs.native("wrapGAppsHook4");
        inputs.build("gtk4");
    } else if crate::text::str_eq(name, "io-kit-sys") {
        inputs.framework("IOKit");
    } else if crate::text::str_eq(name, "io-surface") {
        inputs.build("IOSurface");
    } else if crate::text::str_eq(name, "libadwaita-sys") {
        inputs.build("libadwaita");
    } else if crate::text::str_eq(name, "libdbus-sys") {
        inputs.build("dbus");
    } else if crate::text::str_eq(name, "libgit2-sys") {
        inputs.build("libgit2");
    } else if crate::text::str_eq(name, "libgpg-error-sys") {
        inputs.native("libgpg-error");
        inputs.build("libgpg-error");
    } else if crate::text::str_eq(name, "libhandy-sys") {
        if pkg.version.before_release(0, 7, 0) {
            inputs.build("libhandy_0");
        } else {
            inputs.build("libhandy");
        }
    } else if crate::text::str_eq(name, "libpanel-sys") {
        inputs.build("libpanel");
    } else if crate::text::str_eq(name, "libpulse-sys") {
        inputs.build("libpulseaudio");
    } else if crate::text::str_eq(name, "librocksdb-sys") {
        let mut tags: Vec<String> = Vec::new();
        tags.push("rocksdb".to_owned());
        let ghost s0 = *inputs;
        inputs.env_var("ROCKSDB_INCLUDE_DIR", "\"${rocksdb}/include\"", tags);
        let ghost s1 = *inputs;
        inputs.env_var("ROCKSDB_LIB_DIR", "\"${rocksdb}/lib\"", Vec::new());
        proof {
            reveal_strlit("ROCKSDB_INCLUDE_DIR");
            reveal_strlit("ROCKSDB_LIB_DIR");
            assert("ROCKSDB_INCLUDE_DIR"@.len() == 19);
            assert("ROCKSDB_LIB_DIR"@.len() == 15);
            assert("ROCKSDB_INCLUDE_DIR"@ != "ROCKSDB_LIB_DIR"@);
            assert(in_list(env_names(inputs.env@), "ROCKSDB_INCLUDE_DIR"@));
            lemma_env_value_stays(
                s1.env@,
                inputs.env@,
                "ROCKSDB_INCLUDE_DIR"@,
                "ROCKSDB_LIB_DIR"@,
                "\"${rocksdb}/include\""@,
            );
            assert forall|x: Seq<char>|
                in_list(env_names(inputs.env@), x) <==> in_list(env_names(s0.env@), x) || x
                    == "ROCKSDB_INCLUDE_DIR"@ || x == "ROCKSDB_LIB_DIR"@ by {}
        }
        if has_feature(&pkg.features, "io-uring") {
            inputs.build_on(Bucket::Linux, "liburing");
        }
    } else if crate::text::str_eq(name, "libsecret-sys") {
        inputs.build("libsecret");
    } else if crate::text::str_eq(name, "libshumate-sys") {
        inputs.build("libshumate");
    } else if crate::text::str_eq(name, "libsodium-sys") || crate::text::str_eq(name, "libsodium-sys-stable") {
        inputs.build("libsodium");
        if !has_feature(&pkg.features, "use-pkg-config") {
            inputs.env_var("SODIUM_USE_PKG_CONFIG", "true", Vec::new());
        }
    } else if crate::text::str_eq(name, "libspa-sys") {
        inputs.build("pipewire");
    } else if crate::text::str_eq(name, "libsqlite3-sys") {
        inputs.build("sqlite");
    } else if crate::text::str_eq(name, "libudev-sys") {
        inputs.build("udev");
    } else if crate::text::str_eq(name, "libusb1-sys") {
        inputs.build("libusb");
    } else if crate::text::str_eq(name, "libxml") {
        inputs.build("libxml2");
    } else if crate::text::str_eq(name, "libz-sys") {
        if has_feature(&pkg.features, "static") {
        } else if has_feature(&pkg.features, "stock-zlib") || !has_feature(
            &pkg.features,
            "zlib-ng",
        ) {
            inputs.build("zlib");
        }
    } else if crate::text::str_eq(name, "llvm-sys") {
        inputs.build("libxml2");
        inputs.build("ncurses");
        inputs.build("zlib");
        let major = u64_dec(pkg.version.major);
        let mut env_name = String::new();
        env_name.append("LLVM_SYS_");
        env_name.append(major.as_str());
        env_name.append("_PREFIX");
        let line = u64_dec(pkg.version.major / 10);
        let mut llvm_pkgs = String::new();
        llvm_pkgs.append("llvmPackages_");
        llvm_pkgs.append(line.as_str());
        let mut value = llvm_pkgs.clone();
        value.append(".llvm.dev");
        let mut tags: Vec<String> = Vec::new();
        tags.push(llvm_pkgs);
        proof {
            assert(env_name@ =~= "LLVM_SYS_"@ + dec_view(pkg.version.major as nat) + "_PREFIX"@);
            assert(value@ =~= "llvmPackages_"@ + dec_view((pkg.version.major / 10) as nat)
                + ".llvm.dev"@);
        }
        inputs.env_var(env_name.as_str(), value.as_str(), tags);
    } else if crate::text::str_eq(name, "locate-dwarf") {
        inputs.framework("CoreServices");
    } else if crate::text::str_eq(name, "lzma-sys") {
        inputs.build("xz");
    } else if crate::text::str_eq(name, "metal") {
        inputs.framework("Metal");
    } else if crate::text::str_eq(name, "ncurses") {
        inputs.build("ncurses");
    } else if crate::text::str_eq(name, "nettle-sys") {
        inputs.build("nettle");
    } else if crate::text::str_eq(name, "onig_sys") {
        inputs.build("oniguruma");
        inputs.env_var("RUSTONIG_SYSTEM_LIBONIG", "true", Vec::new());
    } else if crate::text::str_eq(name, "openssl-sys") {
        inputs.build("openssl");
        inputs.framework("Security");
        if has_feature(&pkg.features, "vendored") {
            inputs.env_var("OPENSSL_NO_VENDOR", "true", Vec::new());
        }
    } else if crate::text::str_eq(name, "pam-sys") {
        inputs.build("pam");
    } else if crate::text::str_eq(name, "pango-sys") {
        inputs.build("pango");
    } else if crate::text::str_eq(name, "pipewire-sys") {
        inputs.build("pipewire");
    } else if crate::text::str_eq(name, "pkg-config") {
        inputs.native("pkg-config");
    } else if crate::text::str_eq(name, "poppler-sys-rs") {
        inputs.build("poppler");
    } else if crate::text::str_eq(name, "pq-sys") {
        inputs.build("postgresql");
    } else if crate::text::str_eq(name, "prost-build") {
        inputs.native("protobuf");
    } else if crate::text::str_eq(name, "rdkafka-sys") {
        inputs.build("rdkafka");
    } else if crate::text::str_eq(name, "readkey") {
        inputs.framework("AppKit");
    } else if crate::text::str_eq(name, "readmouse") {
        inputs.framework("AppKit");
    } else if crate::text::str_eq(name, "ring") {
        inputs.framework("Security");
    } else if crate::text::str_eq(name, "security-framework-sys") {
        inputs.framework("Security");
    } else if crate::text::str_eq(name, "servo-fontconfig-sys") {
        inputs.build("fontconfig");
    } else if crate::text::str_eq(name, "smithay-client-toolkit") {
        inputs.build("libxkbcommon");
    } else if crate::text::str_eq(name, "soup-sys") {
        inputs.build("libsoup");
    } else if crate::text::str_eq(name, "soup2-sys") {
        inputs.build("libsoup");
    } else if crate::text::str_eq(name, "soup3-sys") {
        inputs.build("libsoup_3");
    } else if crate::text::str_eq(name, "sourceview5-sys") {
        inputs.build("gtksourceview5");
    } else if crate::text::str_eq(name, "spirv-tools-sys") {
        inputs.build("spirv-tools");
    } else if crate::text::str_eq(name, "sys-locale") {
        inputs.framework("CoreFoundation");
    } else if crate::text::str_eq(name, "sysinfo") {
        inputs.framework("IOKit");
    } else if crate::text::str_eq(name, "wayland-sys") {
        inputs.build_on(Bucket::Linux, "wayland");
    } else if crate::text::str_eq(name, "webkit2gtk-sys") {
        inputs.build("webkitgtk");
    } else if crate::text::str_eq(name, "webkit2gtk-webextension-sys") {
        inputs.build("webkitgtk");
    } else if crate::text::str_eq(name, "webkit2gtk5-sys") {
        inputs.build("webkitgtk_5_0");
    } else if crate::text::str_eq(name, "webkit2gtk5-webextension-sys") {
        inputs.build("webkitgtk_5_0");
    } else if crate::text::str_eq(name, "wgpu-hal") {
        inputs.framework("QuartzCore");
    } else if crate::text::str_eq(name, "whoami") {
        inputs.framework("CoreFoundation");
        inputs.framework("SystemConfiguration");
    } else if crate::text::str_eq(name, "wholesym") {
        inputs.framework("CoreServices");
    } else if crate::text::str_eq(name, "wireplumber") {
        inputs.build("wireplumber");
    } else if crate::text::str_eq(name, "x11") {
        load_x11_features(inputs, &pkg.features);
    } else if crate::text::str_eq(name, "xcb") {
        inputs.build_on(Bucket::Linux, "xorg.libxcb");
        if pkg.version.before_release(0, 10, 0) {
            inputs.native_on(Bucket::Linux, "python3");
        }
    } else if crate::text::str_eq(name, "xkbcommon") {
        inputs.build("libxkbcommon");
    } else if crate::text::str_eq(name, "xkbcommon-sys") {
        inputs.build("libxkbcommon");
    } else if crate::text::str_eq(name, "yeslogic-fontconfig-sys") {
        inputs.build("fontconfig");
    } else if crate::text::str_eq(name, "zmq-sys") {
        inputs.build("zeromq");
    } else if crate::text::str_eq(name, "zstd-sys") {
        if has_feature(&pkg.features, "pkg-config") {
            inputs.build("zstd");
        } else if pkg.version.at_least_release(2, 0, 5) {
            inputs.build("zstd");
            inputs.env_var("ZSTD_SYS_USE_PKG_CONFIG", "true", Vec::new());
        }
    }

}

/// What a run of resolved packages does: each package's table work in
/// order, through well-formed intermediate states.
pub open spec fn rust_deps_applied(o: AllInputs, n: AllInputs, pkgs: Seq<RustPackage>) -> bool
    decreases pkgs.len(),
{
    if pkgs.len() == 0 {
        n == o
    } else {
        exists|mid: AllInputs|
            mid.wf() && #[trigger] rust_dep_applied(o, mid, &pkgs[0]) && rust_deps_applied(
                mid,
                n,
                pkgs.skip(1),
            )
    }
}

/// One more package's work extends a run.
proof fn lemma_rust_deps_applied_snoc(
    o: AllInputs,
    mid: AllInputs,
    n: AllInputs,
    pkgs: Seq<RustPackage>,
    p: RustPackage,
)
    requires
        rust_deps_applied(o, mid, pkgs),
        mid.wf(),
        n.wf(),
        rust_dep_applied(mid, n, &p),
    ensures
        rust_deps_applied(o, n, pkgs.push(p)),
    decreases pkgs.len(),
{
    if pkgs.len() == 0 {
        assert(mid == o);
        assert(pkgs.push(p)[0] == p);
        assert(pkgs.push(p).skip(1) =~= Seq::<RustPackage>::empty());
        assert(rust_dep_applied(o, n, &pkgs.push(p)[0]));
        assert(rust_deps_applied(n, n, pkgs.push(p).skip(1)));
    } else {
        let m1 = choose|m1: AllInputs|
            m1.wf() && #[trigger] rust_dep_applied(o, m1, &pkgs[0]) && rust_deps_applied(
                m1,
                mid,
                pkgs.skip(1),
            );
        lemma_rust_deps_applied_snoc(m1, mid, n, pkgs.skip(1), p);
        assert(pkgs.push(p)[0] == pkgs[0]);
        assert(pkgs.push(p).skip(1) =~= pkgs.skip(1).push(p));
        assert(rust_dep_applied(o, m1, &pkgs.push(p)[0]));
    }
}

/// Maps a whole resolved dependency graph, package by package: the final
/// state is the packages' table work applied in order.  An unknown
/// identifier contributes nothing and never stops the mapping of those
/// after it.
pub fn load_rust_dependencies(inputs: &mut AllInputs, packages: &Vec<RustPackage>)
    requires
        old(inputs).wf(),
    ensures
        final(inputs).wf(),
        rust_deps_applied(*old(inputs), *final(inputs), packages@),
{
    let n = packages.len();
    let mut i: usize = 0;
    proof {
        assert(packages@.take(0).len() == 0);
        assert(rust_deps_applied(*old(inputs), *inputs, packages@.take(0)));
    }
    while i < n
        invariant
            n == packages@.len(),
            inputs.wf(),
            i <= n,
            rust_deps_applied(*old(inputs), *inputs, packages@.take(i as int)),
        decreases n - i,
    {
        let ghost mid = *inputs;
        load_rust_dependency(inputs, &packages[i]);
        proof {
            lemma_rust_deps_applied_snoc(
                *old(inputs),
                mid,
                *inputs,
                packages@.take(i as int),
                packages@[i as int],
            );
            assert(packages@.take(i as int).push(packages@[i as int]) =~= packages@.take(i + 1));
        }
        i += 1;
    }
    proof {
        assert(packages@.take(n as int) =~= packages@);
    }
}

// ---------------------------------------------------------------------------
// The embedded lock file's field.
// ---------------------------------------------------------------------------

/// One package the lock file pins to a version-control source.
pub struct GitPackage {
    pub name: String,
    pub version: String,
    pub rev: String,
    pub url: String,
}

/// Whether some package carries this revision.
pub open spec fn has_rev(v: Seq<GitPackage>, x: Seq<char>) -> bool {
    exists|k: int| 0 <= k < v.len() && #[trigger] v[k].rev@ == x
}

/// The packages left after keeping the first for each revision.
pub open spec fn dedup_git_view(v: Seq<GitPackage>) -> Seq<GitPackage>
    decreases v.len(),
{
    if v.len() == 0 {
        Seq::empty()
    } else {
        dedup_git_view(v.drop_last()) + (if has_rev(v.drop_last(), v.last().rev@) {
            Seq::empty()
        } else {
            seq![v.last()]
        })
    }
}

/// Keeps the first package of each revision: one prefetch per revision is
/// enough.
pub fn dedup_git_revs(pkgs: Vec<GitPackage>) -> (r: Vec<GitPackage>)
    ensures
        r@ == dedup_git_view(pkgs@),
{
    let ghost orig = pkgs@;
    let mut rest = pkgs;
    let mut out: Vec<GitPackage> = Vec::new();
    let n = rest.len();
    let mut i: usize = 0;
    proof {
        assert(orig.take(0).len() == 0);
        assert(out@ =~= dedup_git_view(orig.take(0)));
    }
    while i < n
        invariant
            n == orig.len(),
            i <= n,
            rest@ == orig.skip(i as int),
            out@ == dedup_git_view(orig.take(i as int)),
            forall|j: int| 0 <= j < i ==> has_rev(out@, #[trigger] orig[j].rev@),
            forall|k: int|
                0 <= k < out@.len() ==> has_rev(orig.take(i as int), #[trigger] out@[k].rev@),
        decreases n - i,
    {
        proof {
            assert(orig.skip(i as int)[0] == orig[i as int]);
            assert(orig.take(i + 1).drop_last() =~= orig.take(i as int));
            assert(orig.take(i + 1).last() == orig[i as int]);
        }
        let pkg = rest.remove(0);
        proof {
            assert(rest@ =~= orig.skip(i + 1));
        }
        let m = out.len();
        let mut k: usize = 0;
        let mut seen = false;
        while k < m
            invariant
                m == out@.len(),
                k <= m,
                pkg == orig[i as int],
                seen == exists|w: int| 0 <= w < k && #[trigger] out@[w].rev@ == pkg.rev@,
            decreases m - k,
        {
            if crate::text::str_eq(out[k].rev.as_str(), pkg.rev.as_str()) {
                proof {
                    assert(out@[k as int].rev@ == pkg.rev@);
                }
                seen = true;
            }
            k += 1;
        }
        proof {
            assert(seen == has_rev(out@, orig[i as int].rev@));
            assert(seen == has_rev(orig.take(i as int), orig[i as int].rev@)) by {
                if has_rev(out@, orig[i as int].rev@) {
                    let w = choose|w: int|
                        0 <= w < out@.len() && #[trigger] out@[w].rev@ == orig[i as int].rev@;
                }
                if has_rev(orig.take(i as int), orig[i as int].rev@) {
                    let j = choose|j: int|
                        0 <= j < i && #[trigger] orig.take(i as int)[j].rev@ == orig[
                        i as int].rev@;
                    assert(orig[j].rev@ == orig[i as int].rev@);
                }
            }
        }
        let ghost outpre = out@;
        if !seen {
            out.push(pkg);
            proof {
                assert(out@ =~= dedup_git_view(orig.take(i as int)) + seq![orig[i as int]]);
                assert(out@ =~= dedup_git_view(orig.take(i + 1)));
                assert forall|j: int| 0 <= j < i + 1 implies has_rev(
                    out@,
                    #[trigger] orig[j].rev@,
                ) by {
                    if j < i {
                        let w = choose|w: int|
                            0 <= w < outpre.len() && #[trigger] outpre[w].rev@ == orig[j].rev@;
                        assert(out@[w].rev@ == orig[j].rev@);
                    } else {
                        assert(out@[out@.len() - 1].rev@ == orig[j].rev@);
                    }
                }
                assert forall|k2: int| 0 <= k2 < out@.len() implies has_rev(
                    orig.take(i + 1),
                    #[trigger] out@[k2].rev@,
                ) by {
                    if k2 < out@.len() - 1 {
                        assert(out@[k2] == outpre[k2]);
                        let j = choose|j: int|
                            0 <= j < i && #[trigger] orig.take(i as int)[j].rev@
                                == outpre[k2].rev@;
                        assert(orig.take(i + 1)[j].rev@ == out@[k2].rev@);
                    } else {
                        assert(orig.take(i + 1)[i as int].rev@ == out@[k2].rev@);
                    }
                }
            }
        } else {
            proof {
                assert(out@ =~= dedup_git_view(orig.take(i + 1)));
                assert forall|j: int| 0 <= j < i + 1 implies has_rev(
                    out@,
                    #[trigger] orig[j].rev@,
                ) by {
                    if j == i {
                        assert(has_rev(out@, orig[i as int].rev@));
                    }
                }
                assert forall|k2: int| 0 <= k2 < out@.len() implies has_rev(
                    orig.take(i + 1),
                    #[trigger] out@[k2].rev@,
                ) by {
                    let j = choose|j: int|
                        0 <= j < i && #[trigger] orig.take(i as int)[j].rev@ == out@[k2].rev@;
                    assert(orig.take(i + 1)[j].rev@ == out@[k2].rev@);
                }
            }
        }
        i += 1;
    }
    proof {
        assert(orig.take(n as int) =~= orig);
    }
    out
}

/// One prefetched hash's line in the embedded lock field.
pub open spec fn hash_line(k: Seq<char>, v: Seq<char>) -> Seq<char> {
    "      \""@ + k + "\" = \""@ + v + "\";\n"@
}

/// The lines of all prefetched hashes, each pinned package once, in order of
/// its name-and-version key.
pub open spec fn hash_lines(pairs: Seq<(Seq<char>, Seq<char>)>) -> Seq<Seq<char>>
    decreases pairs.len(),
{
    if pairs.len() == 0 {
        Seq::empty()
    } else {
        sorted_insert_view(hash_lines(pairs.drop_last()), hash_line(
            pairs.last().0,
            pairs.last().1,
        ))
    }
}

/// A run of lines, one after the other.
pub open spec fn cat_lines(ls: Seq<Seq<char>>) -> Seq<char>
    decreases ls.len(),
{
    if ls.len() == 0 {
        Seq::empty()
    } else {
        cat_lines(ls.drop_last()) + ls.last()
    }
}

/// The views of a pair list.
pub open spec fn pair_kv_views(v: Seq<(String, String)>) -> Seq<(Seq<char>, Seq<char>)> {
    v.map_values(|p: (String, String)| (p.0@, p.1@))
}

/// The embedded lock field: the lock file itself, the prefetched hash of
/// each version-control source, and — when the tree shipped no lock file —
/// the patch step that links the embedded one in.
pub open spec fn cargo_lock_text(has_cargo_lock: bool, pairs: Seq<(Seq<char>, Seq<char>)>)
    -> Seq<char> {
    let lines = hash_lines(pairs);
    "{\n    lockFile = ./Cargo.lock;\n"@ + (if lines.len() > 0 {
        "    outputHashes = {\n"@ + cat_lines(lines) + "    };\n"@
    } else {
        Seq::empty()
    }) + "  };\n\n"@ + (if !has_cargo_lock {
        "  postPatch = ''\n    ln -s ${./Cargo.lock} Cargo.lock\n  '';\n\n"@
    } else {
        Seq::empty()
    })
}

/// Writes the embedded lock field, the prefetched hashes sorted by their
/// name-and-version key.
pub fn write_cargo_lock(
    out: &mut String,
    has_cargo_lock: bool,
    output_hashes: &Vec<(String, String)>,
)
    ensures
        final(out)@ == old(out)@ + cargo_lock_text(has_cargo_lock, pair_kv_views(output_hashes@)),
{
    let ghost out0 = out@;
    let ghost pv = pair_kv_views(output_hashes@);
    let mut lines: Vec<String> = Vec::new();
    let n = output_hashes.len();
    let mut i: usize = 0;
    proof {
        assert(name_views(lines@) =~= hash_lines(pv.take(0)));
        assert(crate::inputs::ordered(name_views(lines@)));
    }
    while i < n
        invariant
            n == output_hashes@.len(),
            pv == pair_kv_views(output_hashes@),
            i <= n,
            crate::inputs::ordered(name_views(lines@)),
            name_views(lines@) == hash_lines(pv.take(i as int)),
        decreases n - i,
    {
        proof {
            assert(pv.take(i + 1).drop_last() =~= pv.take(i as int));
            assert(pv.take(i + 1).last() == pv[i as int]);
        }
        let entry = &output_hashes[i];
        let mut line = String::new();
        line.append("      \"");
        line.append(entry.0.as_str());
        line.append("\" = \"");
        line.append(entry.1.as_str());
        line.append("\";\n");
        proof {
            assert(line@ =~= hash_line(pv[i as int].0, pv[i as int].1));
        }
        crate::inputs::sorted_insert(&mut lines, line.as_str());
        i += 1;
    }
    proof {
        assert(pv.take(n as int) =~= pv);
    }
    out.append("{\n    lockFile = ./Cargo.lock;\n");
    let ghost head = "{\n    lockFile = ./Cargo.lock;\n"@;
    if lines.len() > 0 {
        out.append("    outputHashes = {\n");
        let ghost mid0 = out@;
        let m = lines.len();
        let mut j: usize = 0;
        proof {
            assert(cat_lines(name_views(lines@).take(0)) =~= Seq::<char>::empty());
            assert(out@ =~= mid0 + cat_lines(name_views(lines@).take(0)));
        }
        while j < m
            invariant
                m == lines@.len(),
                j <= m,
                out@ == mid0 + cat_lines(name_views(lines@).take(j as int)),
            decreases m - j,
        {
            out.append(lines[j].as_str());
            proof {
                let nv = name_views(lines@);
                assert(nv.take(j + 1).drop_last() =~= nv.take(j as int));
                assert(nv.take(j + 1).last() == nv[j as int]);
                assert(out@ =~= mid0 + cat_lines(nv.take(j + 1)));
            }
            j += 1;
        }
        out.append("    };\n");
        proof {
            assert(name_views(lines@).take(m as int) =~= name_views(lines@));
        }
    }
    out.append("  };\n\n");
    if !has_cargo_lock {
        out.append("  postPatch = ''\n    ln -s ${./Cargo.lock} Cargo.lock\n  '';\n\n");
    }
    proof {
        assert(out@ =~= out0 + cargo_lock_text(has_cargo_lock, pv));
    }
}

// ---------------------------------------------------------------------------
// The community dependency registry's per-target inputs.
// ---------------------------------------------------------------------------

/// The two input lists one registry target carries.
pub struct RiffTargetInputs {
    pub native_build_inputs: Vec<String>,
    pub build_inputs: Vec<String>,
}

/// One registry entry for a package: its unconditional inputs and the
/// per-target extras.
pub struct RiffDependency {
    pub native_build_inputs: Vec<String>,
    pub build_inputs: Vec<String>,
    pub aarch64_darwin: RiffTargetInputs,
    pub x86_64_darwin: RiffTargetInputs,
    pub aarch64_linux: RiffTargetInputs,
    pub x86_64_linux: RiffTargetInputs,
}

/// One per-target name filed against the three buckets of its system: a name
/// the unconditional or whole-system bucket holds is dropped; one the other
/// architecture already holds is promoted to the whole system; a new one
/// lands in this architecture's bucket.  The state is (system, this
/// architecture, the other architecture).
pub open spec fn riff_step(
    st: (Seq<Seq<char>>, Seq<Seq<char>>, Seq<Seq<char>>),
    always: Seq<Seq<char>>,
    name: Seq<char>,
) -> (Seq<Seq<char>>, Seq<Seq<char>>, Seq<Seq<char>>) {
    if in_list(always, name) || in_list(st.0, name) {
        st
    } else if in_list(st.2, name) {
        (sorted_insert_view(st.0, name), st.1, sorted_remove_view(st.2, name))
    } else {
        (st.0, sorted_insert_view(st.1, name), st.2)
    }
}

/// A whole per-target list filed, name by name.
pub open spec fn riff_fold(
    st: (Seq<Seq<char>>, Seq<Seq<char>>, Seq<Seq<char>>),
    always: Seq<Seq<char>>,
    names: Seq<Seq<char>>,
) -> (Seq<Seq<char>>, Seq<Seq<char>>, Seq<Seq<char>>)
    decreases names.len(),
{
    if names.len() == 0 {
        st
    } else {
        riff_fold(riff_step(st, always, names[0]), always, names.skip(1))
    }
}

/// Files one per-target name, promoting a name both architectures carry to
/// the whole system.
fn riff_promote(inp: &mut Inputs, sys: Bucket, this_arch: Bucket, other_arch: Bucket, name: &str)
    requires
        old(inp).wf(),
        sys != this_arch && sys != other_arch && this_arch != other_arch,
        sys != Bucket::Always && this_arch != Bucket::Always && other_arch != Bucket::Always,
    ensures
        final(inp).wf(),
        (
            final(inp).bucket_view(sys),
            final(inp).bucket_view(this_arch),
            final(inp).bucket_view(other_arch),
        ) == riff_step(
            (
                old(inp).bucket_view(sys),
                old(inp).bucket_view(this_arch),
                old(inp).bucket_view(other_arch),
            ),
            old(inp).bucket_view(Bucket::Always),
            name@,
        ),
        forall|c: Bucket|
            c != sys && c != this_arch && c != other_arch ==> final(inp).bucket_view(c) == old(
                inp,
            ).bucket_view(c),
    {
    if inp.contains(Bucket::Always, name) || inp.contains(sys, name) {
        return ;
    }
    if inp.remove(other_arch, name) {
        inp.insert(sys, name);
    } else {
        proof {
            crate::inputs::lemma_sorted_remove_absent(
                old(inp).bucket_view(other_arch),
                name@,
            );
        }
        inp.insert(this_arch, name);
    }
}

/// Files a whole per-target list against its system's three buckets.
fn riff_load_target(
    inp: &mut Inputs,
    sys: Bucket,
    this_arch: Bucket,
    other_arch: Bucket,
    names: &Vec<String>,
)
    requires
        old(inp).wf(),
        sys != this_arch && sys != other_arch && this_arch != other_arch,
        sys != Bucket::Always && this_arch != Bucket::Always && other_arch != Bucket::Always,
    ensures
        final(inp).wf(),
        (
            final(inp).bucket_view(sys),
            final(inp).bucket_view(this_arch),
            final(inp).bucket_view(other_arch),
        ) == riff_fold(
            (
                old(inp).bucket_view(sys),
                old(inp).bucket_view(this_arch),
                old(inp).bucket_view(other_arch),
            ),
            old(inp).bucket_view(Bucket::Always),
            views(names@),
        ),
        final(inp).bucket_view(Bucket::Always) == old(inp).bucket_view(Bucket::Always),
        forall|c: Bucket|
            c != sys && c != this_arch && c != other_arch ==> final(inp).bucket_view(c) == old(
                inp,
            ).bucket_view(c),
{
    let ghost ns = views(names@);
    let ghost st0 = (
        inp.bucket_view(sys),
        inp.bucket_view(this_arch),
        inp.bucket_view(other_arch),
    );
    let ghost aw = inp.bucket_view(Bucket::Always);
    let n = names.len();
    let mut i: usize = 0;
    proof {
        assert(ns.skip(0) =~= ns);
    }
    while i < n
        invariant
            n == names@.len(),
            ns == views(names@),
            i <= n,
            inp.wf(),
            sys != this_arch && sys != other_arch && this_arch != other_arch,
            sys != Bucket::Always && this_arch != Bucket::Always && other_arch != Bucket::Always,
            inp.bucket_view(Bucket::Always) == aw,
            riff_fold(st0, aw, ns) == riff_fold(
                (
                    inp.bucket_view(sys),
                    inp.bucket_view(this_arch),
                    inp.bucket_view(other_arch),
                ),
                aw,
                ns.skip(i as int),
            ),
            forall|c: Bucket|
                c != sys && c != this_arch && c != other_arch ==> inp.bucket_view(c) == old(
                    inp,
                ).bucket_view(c),
        decreases n - i,
    {
        proof {
            assert(ns.skip(i as int)[0] == ns[i as int]);
            assert(ns.skip(i as int).skip(1) =~= ns.skip(i + 1));
        }
        riff_promote(inp, sys, this_arch, other_arch, names[i].as_str());
        i += 1;
    }
    proof {
        assert(ns.skip(n as int).len() == 0);
    }
}

/// The bucket after filing a plain list of names.
pub open spec fn insert_list_fold(cur: Seq<Seq<char>>, names: Seq<Seq<char>>) -> Seq<Seq<char>>
    decreases names.len(),
{
    if names.len() == 0 {
        cur
    } else {
        insert_list_fold(sorted_insert_view(cur, names[0]), names.skip(1))
    }
}

/// Files a plain list of names into one bucket.
fn insert_name_list(inp: &mut Inputs, b: Bucket, names: &Vec<String>)
    requires
        old(inp).wf(),
    ensures
        final(inp).wf(),
        final(inp).bucket_view(b) == insert_list_fold(old(inp).bucket_view(b), views(names@)),
        forall|c: Bucket| c != b ==> final(inp).bucket_view(c) == old(inp).bucket_view(c),
{
    let ghost ns = views(names@);
    let ghost b0 = inp.bucket_view(b);
    let n = names.len();
    let mut i: usize = 0;
    proof {
        assert(ns.skip(0) =~= ns);
    }
    while i < n
        invariant
            n == names@.len(),
            ns == views(names@),
            i <= n,
            inp.wf(),
            insert_list_fold(b0, ns) == insert_list_fold(inp.bucket_view(b), ns.skip(i as int)),
            forall|c: Bucket| c != b ==> inp.bucket_view(c) == old(inp).bucket_view(c),
        decreases n - i,
    {
        proof {
            assert(ns.skip(i as int)[0] == ns[i as int]);
            assert(ns.skip(i as int).skip(1) =~= ns.skip(i + 1));
        }
        inp.insert(b, names[i].as_str());
        i += 1;
    }
    proof {
        assert(ns.skip(n as int).len() == 0);
    }
}

/// Merges one registry entry: its unconditional inputs land in the always
/// buckets, and each target's extras are filed against its system — the
/// architecture-first lists in order, a name both architectures carry
/// promoted to the whole system.
#[verifier::rlimit(100)]
#[verifier::spinoff_prover]
pub fn load_riff_dependency(inputs: &mut AllInputs, dep: &RiffDependency)
    requires
        old(inputs).wf(),
    ensures
        final(inputs).wf(),
        final(inputs).env == old(inputs).env,
        ({
            let o = old(inputs).native_build_inputs;
            let aw = insert_list_fold(
                o.bucket_view(Bucket::Always),
                views(dep.native_build_inputs@),
            );
            let d1 = riff_fold(
                (
                    o.bucket_view(Bucket::Darwin),
                    o.bucket_view(Bucket::Aarch64Darwin),
                    o.bucket_view(Bucket::X8664Darwin),
                ),
                aw,
                views(dep.aarch64_darwin.native_build_inputs@),
            );
            let d2 = riff_fold((d1.0, d1.2, d1.1), aw, views(dep.x86_64_darwin.native_build_inputs@));
            let l1 = riff_fold(
                (
                    o.bucket_view(Bucket::Linux),
                    o.bucket_view(Bucket::Aarch64Linux),
                    o.bucket_view(Bucket::X8664Linux),
                ),
                aw,
                views(dep.aarch64_linux.native_build_inputs@),
            );
            let l2 = riff_fold((l1.0, l1.2, l1.1), aw, views(dep.x86_64_linux.native_build_inputs@));
            &&& final(inputs).native_build_inputs.bucket_view(Bucket::Always) == aw
            &&& final(inputs).native_build_inputs.bucket_view(Bucket::Darwin) == d2.0
            &&& final(inputs).native_build_inputs.bucket_view(Bucket::X8664Darwin) == d2.1
            &&& final(inputs).native_build_inputs.bucket_view(Bucket::Aarch64Darwin) == d2.2
            &&& final(inputs).native_build_inputs.bucket_view(Bucket::Linux) == l2.0
            &&& final(inputs).native_build_inputs.bucket_view(Bucket::X8664Linux) == l2.1
            &&& final(inputs).native_build_inputs.bucket_view(Bucket::Aarch64Linux) == l2.2
        }),
        ({
            let o = old(inputs).build_inputs;
            let aw = insert_list_fold(o.bucket_view(Bucket::Always), views(dep.build_inputs@));
            let d1 = riff_fold(
                (
                    o.bucket_view(Bucket::Darwin),
                    o.bucket_view(Bucket::Aarch64Darwin),
                    o.bucket_view(Bucket::X8664Darwin),
                ),
                aw,
                views(dep.aarch64_darwin.build_inputs@),
            );
            let d2 = riff_fold((d1.0, d1.2, d1.1), aw, views(dep.x86_64_darwin.build_inputs@));
            let l1 = riff_fold(
                (
                    o.bucket_view(Bucket::Linux),
                    o.bucket_view(Bucket::Aarch64Linux),
                    o.bucket_view(Bucket::X8664Linux),
                ),
                aw,
                views(dep.aarch64_linux.build_inputs@),
            );
            let l2 = riff_fold((l1.0, l1.2, l1.1), aw, views(dep.x86_64_linux.build_inputs@));
            &&& final(inputs).build_inputs.bucket_view(Bucket::Always) == aw
            &&& final(inputs).build_inputs.bucket_view(Bucket::Darwin) == d2.0
            &&& final(inputs).build_inputs.bucket_view(Bucket::X8664Darwin) == d2.1
            &&& final(inputs).build_inputs.bucket_view(Bucket::Aarch64Darwin) == d2.2
            &&& final(inputs).build_inputs.bucket_view(Bucket::Linux) == l2.0
            &&& final(inputs).build_inputs.bucket_view(Bucket::X8664Linux) == l2.1
            &&& final(inputs).build_inputs.bucket_view(Bucket::Aarch64Linux) == l2.2
        }),
{
    insert_name_list(&mut inputs.native_build_inputs, Bucket::Always, &dep.native_build_inputs);
    insert_name_list(&mut inputs.build_inputs, Bucket::Always, &dep.build_inputs);
    riff_load_target(
        &mut inputs.native_build_inputs,
        Bucket::Darwin,
        Bucket::Aarch64Darwin,
        Bucket::X8664Darwin,
        &dep.aarch64_darwin.native_build_inputs,
    );
    riff_load_target(
        &mut inputs.native_build_inputs,
        Bucket::Darwin,
        Bucket::X8664Darwin,
        Bucket::Aarch64Darwin,
        &dep.x86_64_darwin.native_build_inputs,
    );
    riff_load_target(
        &mut inputs.native_build_inputs,
        Bucket::Linux,
        Bucket::Aarch64Linux,
        Bucket::X8664Linux,
        &dep.aarch64_linux.native_build_inputs,
    );
    riff_load_target(
        &mut inputs.native_build_inputs,
        Bucket::Linux,
        Bucket::X8664Linux,
        Bucket::Aarch64Linux,
        &dep.x86_64_linux.native_build_inputs,
    );
    riff_load_target(
        &mut inputs.build_inputs,
        Bucket::Darwin,
        Bucket::Aarch64Darwin,
        Bucket::X8664Darwin,
        &dep.aarch64_darwin.build_inputs,
    );
    riff_load_target(
        &mut inputs.build_inputs,
        Bucket::Darwin,
        Bucket::X8664Darwin,
        Bucket::Aarch64Darwin,
        &dep.x86_64_darwin.build_inputs,
    );
    riff_load_target(
        &mut inputs.build_inputs,
        Bucket::Linux,
        Bucket::Aarch64Linux,
        Bucket::X8664Linux,
        &dep.aarch64_linux.build_inputs,
    );
    riff_load_target(
        &mut inputs.build_inputs,
        Bucket::Linux,
        Bucket::X8664Linux,
        Bucket::Aarch64Linux,
        &dep.x86_64_linux.build_inputs,
    );
}

} // verus!
