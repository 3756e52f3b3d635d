//! The environment synthesizer: a rule table keyed by the names of the
//! library root's child directories, plus passes over the bundle's `share/`
//! and `etc/` trees.  Each rule yields a list of environment operations; the
//! operations are data, so the table is exact and testable, and a single
//! verified applier folds them into the environment block.

use vstd::prelude::*;
use vstd::string::*;
use crate::env::EnvMap;
use crate::env::env_wf;
use crate::env::set_spec;
use crate::env::prepend_spec;
use crate::probe::WalkEntry;
use crate::probe::walk_entries;
use crate::probe::list_dir;
use crate::probe::path_exists;
use crate::strutil::concat_str;
use crate::strutil::starts_with_str;
use crate::strutil::str_eq;

verus! {

/// One environment operation: prepend to a list-valued variable, or set it.
pub struct EnvOp {
    pub prepend: bool,
    pub key: String,
    pub val: String,
}

/// The operations as plain triples.
pub open spec fn ops_view(ops: Seq<EnvOp>) -> Seq<(bool, Seq<char>, Seq<char>)> {
    ops.map_values(|o: EnvOp| (o.prepend, o.key@, o.val@))
}

/// The block after one operation.
pub open spec fn apply_op_spec(
    s: Seq<(Seq<char>, Seq<char>)>,
    op: (bool, Seq<char>, Seq<char>),
) -> Seq<(Seq<char>, Seq<char>)> {
    if op.0 {
        prepend_spec(s, op.1, op.2)
    } else {
        set_spec(s, op.1, op.2)
    }
}

/// The block after a list of operations, applied in order.
pub open spec fn apply_ops_spec(
    s: Seq<(Seq<char>, Seq<char>)>,
    ops: Seq<(bool, Seq<char>, Seq<char>)>,
) -> Seq<(Seq<char>, Seq<char>)>
    decreases ops.len(),
{
    if ops.len() == 0 {
        s
    } else {
        apply_op_spec(apply_ops_spec(s, ops.drop_last()), ops.last())
    }
}

/// Applying a concatenation is applying both lists in turn.
pub proof fn lemma_apply_ops_concat(
    s: Seq<(Seq<char>, Seq<char>)>,
    a: Seq<(bool, Seq<char>, Seq<char>)>,
    b: Seq<(bool, Seq<char>, Seq<char>)>,
)
    ensures
        apply_ops_spec(s, a + b) == apply_ops_spec(apply_ops_spec(s, a), b),
    decreases b.len(),
{
    if b.len() == 0 {
        assert(a + b =~= a);
    } else {
        assert((a + b).drop_last() =~= a + b.drop_last());
        assert((a + b).last() == b.last());
        lemma_apply_ops_concat(s, a, b.drop_last());
    }
}

/// Fold a list of operations into the environment.
pub fn apply_ops(env: &mut EnvMap, ops: &Vec<EnvOp>)
    requires
        env_wf(old(env)@),
    ensures
        env_wf(final(env)@),
        final(env)@ == apply_ops_spec(old(env)@, ops_view(ops@)),
{
    let ghost s0 = env@;
    let ghost ov = ops_view(ops@);
    let mut i: usize = 0;
    proof {
        assert(ov.take(0) =~= Seq::<(bool, Seq<char>, Seq<char>)>::empty());
    }
    while i < ops.len()
        invariant
            i <= ops.len(),
            ops@.len() == ov.len(),
            ov == ops_view(ops@),
            env_wf(env@),
            env@ == apply_ops_spec(s0, ov.take(i as int)),
        decreases ops.len() - i,
    {
        proof {
            assert(ov[i as int] == (ops@[i as int].prepend, ops@[i as int].key@, ops@[i as int].val@));
            assert(ov.take(i + 1).drop_last() =~= ov.take(i as int));
            assert(ov.take(i + 1).last() == ov[i as int]);
        }
        let op = &ops[i];
        if op.prepend {
            env.prepend(op.key.as_str(), op.val.as_str());
        } else {
            env.set(op.key.as_str(), op.val.clone());
        }
        i = i + 1;
    }
    proof {
        assert(ov.take(ops@.len() as int) =~= ov);
    }
}

/// What the disk said about one child directory of the library root, probed
/// before its rules are evaluated.
pub struct DirProbes {
    /// `modules` exists under a `gio` directory.
    pub gio_modules_exists: bool,
    /// The first `immodules.cache` file found under a `gtk-*` directory.
    pub gtk_immodules_cache: Option<String>,
    /// `plugins` exists under a `qt*` directory.
    pub qt_plugins_exists: bool,
    /// `qt.conf` exists beside the dispatch stubs.
    pub qt_conf_exists: bool,
    /// `2.0` exists under a `gimp` directory.
    pub gimp_two_exists: bool,
    /// `plugins-1` exists under a `libdecor` directory.
    pub libdecor_plugins_exists: bool,
    /// `msgs` exists under a `tcl*` directory.
    pub tcl_msgs_exists: bool,
    /// The sibling `tk*` directory exists.
    pub tk_exists: bool,
    /// `gst-plugin-scanner` exists under a `gstreamer-*` directory.
    pub gst_scanner_exists: bool,
    /// The first `loaders` directory found under a `gdk-pixbuf-*` directory.
    pub gdk_loaders_dir: Option<String>,
    /// The first `loaders.cache` file found under a `gdk-pixbuf-*` directory.
    pub gdk_loaders_cache: Option<String>,
}

pub open spec fn no_ops() -> Seq<(bool, Seq<char>, Seq<char>)> {
    Seq::<(bool, Seq<char>, Seq<char>)>::empty()
}

/// The rule table for one child directory of the library root, evaluated in
/// a fixed order.  Prefix rules match any directory carrying the prefix;
/// the others match exactly.
pub open spec fn dir_ops_spec(
    dir: Seq<char>,
    dir_path: Seq<char>,
    sharun_dir: Seq<char>,
    library_path: Seq<char>,
    probes: DirProbes,
) -> Seq<(bool, Seq<char>, Seq<char>)> {
    (if "python"@.is_prefix_of(dir) {
        seq![(true, "PYTHONHOME"@, sharun_dir), (false, "PYTHONDONTWRITEBYTECODE"@, "1"@)]
    } else {
        no_ops()
    }) + (if "perl"@.is_prefix_of(dir) {
        seq![(true, "PERLLIB"@, dir_path)]
    } else {
        no_ops()
    }) + (if dir == "gconv"@ {
        seq![(true, "GCONV_PATH"@, dir_path)]
    } else {
        no_ops()
    }) + (if dir == "gio"@ && probes.gio_modules_exists {
        seq![(false, "GIO_MODULE_DIR"@, dir_path + "/modules"@)]
    } else {
        no_ops()
    }) + (if dir == "dri"@ {
        seq![(false, "LIBGL_DRIVERS_PATH"@, dir_path)]
    } else {
        no_ops()
    }) + (if "spa-"@.is_prefix_of(dir) {
        seq![(false, "SPA_PLUGIN_DIR"@, dir_path)]
    } else {
        no_ops()
    }) + (if "pipewire-"@.is_prefix_of(dir) {
        seq![(false, "PIPEWIRE_MODULE_DIR"@, dir_path)]
    } else {
        no_ops()
    }) + (if "gtk-"@.is_prefix_of(dir) {
        seq![(true, "GTK_PATH"@, dir_path), (false, "GTK_EXE_PREFIX"@, sharun_dir), (false, "GTK_DATA_PREFIX"@, sharun_dir)]
            + (match &probes.gtk_immodules_cache {
            Some(p) => seq![(false, "GTK_IM_MODULE_FILE"@, p@)],
            None => no_ops(),
        })
    } else {
        no_ops()
    }) + (if "qt"@.is_prefix_of(dir) && probes.qt_plugins_exists && !probes.qt_conf_exists {
        seq![(true, "QT_PLUGIN_PATH"@, dir_path + "/plugins"@)]
    } else {
        no_ops()
    }) + (if "babl-"@.is_prefix_of(dir) {
        seq![(false, "BABL_PATH"@, dir_path)]
    } else {
        no_ops()
    }) + (if "gegl-"@.is_prefix_of(dir) {
        seq![(false, "GEGL_PATH"@, dir_path)]
    } else {
        no_ops()
    }) + (if dir == "gimp"@ && probes.gimp_two_exists {
        seq![(false, "GIMP2_PLUGINDIR"@, dir_path + "/2.0"@)]
    } else {
        no_ops()
    }) + (if dir == "libdecor"@ && probes.libdecor_plugins_exists {
        seq![(false, "LIBDECOR_PLUGIN_DIR"@, dir_path + "/plugins-1"@)]
    } else {
        no_ops()
    }) + (if "tcl"@.is_prefix_of(dir) && probes.tcl_msgs_exists {
        seq![(true, "TCL_LIBRARY"@, dir_path)] + (if probes.tk_exists {
            seq![(true, "TK_LIBRARY"@, library_path + "/tk"@ + dir.skip(3))]
        } else {
            no_ops()
        })
    } else {
        no_ops()
    }) + (if "gstreamer-"@.is_prefix_of(dir) {
        seq![(true, "GST_PLUGIN_PATH"@, dir_path), (true, "GST_PLUGIN_SYSTEM_PATH"@, dir_path), (true, "GST_PLUGIN_SYSTEM_PATH_1_0"@, dir_path)]
            + (if probes.gst_scanner_exists {
            seq![(false, "GST_PLUGIN_SCANNER"@, dir_path + "/gst-plugin-scanner"@)]
        } else {
            no_ops()
        })
    } else {
        no_ops()
    }) + (if "gdk-pixbuf-"@.is_prefix_of(dir) {
        (match &probes.gdk_loaders_dir {
            Some(p) => seq![(false, "GDK_PIXBUF_MODULEDIR"@, p@)],
            None => no_ops(),
        }) + (match &probes.gdk_loaders_cache {
            Some(p) => seq![(false, "GDK_PIXBUF_MODULE_FILE"@, p@)],
            None => no_ops(),
        })
    } else {
        no_ops()
    })
}

/// The operations of a list of child directories, each under its own probe
/// outcome, concatenated in their order.
pub open spec fn dirs_ops_spec(
    names: Seq<Seq<char>>,
    sharun_dir: Seq<char>,
    library_path: Seq<char>,
    ps: Seq<DirProbes>,
) -> Seq<(bool, Seq<char>, Seq<char>)>
    decreases names.len(),
{
    if names.len() == 0 {
        no_ops()
    } else {
        dirs_ops_spec(names.drop_last(), sharun_dir, library_path, ps.drop_last()) + dir_ops_spec(
            names.last(),
            library_path + "/"@ + names.last(),
            sharun_dir,
            library_path,
            ps.last(),
        )
    }
}

fn push_op(r: &mut Vec<EnvOp>, prepend: bool, key: &str, val: String)
    ensures
        ops_view(final(r)@) == ops_view(old(r)@).push((prepend, key@, val@)),
{
    let ghost before = ops_view(r@);
    let ghost v = val@;
    r.push(EnvOp { prepend, key: String::from_str(key), val });
    proof {
        assert(ops_view(r@) =~= before.push((prepend, key@, v)));
    }
}

/// The operations the rule table yields for one child directory, given what
/// the disk said.
fn append_ops(dst: &mut Vec<EnvOp>, src: &Vec<EnvOp>)
    ensures
        ops_view(final(dst)@) == ops_view(old(dst)@) + ops_view(src@),
{
    let ghost base = ops_view(dst@);
    let ghost added = ops_view(src@);
    let mut j: usize = 0;
    proof {
        assert(base + added.take(0) =~= base);
    }
    while j < src.len()
        invariant
            j <= src.len(),
            src@.len() == added.len(),
            added == ops_view(src@),
            ops_view(dst@) == base + added.take(j as int),
        decreases src.len() - j,
    {
        let ghost cur = ops_view(dst@);
        let op = &src[j];
        proof {
            assert(added[j as int] == (src@[j as int].prepend, src@[j as int].key@, src@[j as int].val@));
        }
        dst.push(EnvOp { prepend: op.prepend, key: op.key.clone(), val: op.val.clone() });
        proof {
            assert(ops_view(dst@) =~= cur.push(added[j as int]));
            assert(cur.push(added[j as int]) =~= base + added.take(j + 1));
        }
        j = j + 1;
    }
    proof {
        assert(added.take(src@.len() as int) =~= added);
    }
}

fn rule_python(dir: &str, sharun_dir: &str) -> (r: Vec<EnvOp>)
    ensures
        ops_view(r@) == (if "python"@.is_prefix_of(dir@) {
            seq![(true, "PYTHONHOME"@, sharun_dir@), (false, "PYTHONDONTWRITEBYTECODE"@, "1"@)]
        } else {
            no_ops()
        }),
{
    let mut r: Vec<EnvOp> = Vec::new();
    proof {
        assert(ops_view(r@) =~= no_ops());
    }
    if starts_with_str(dir, "python") {
        push_op(&mut r, true, "PYTHONHOME", String::from_str(sharun_dir));
        push_op(&mut r, false, "PYTHONDONTWRITEBYTECODE", String::from_str("1"));
        proof {
            assert(ops_view(r@) =~= seq![(true, "PYTHONHOME"@, sharun_dir@), (false, "PYTHONDONTWRITEBYTECODE"@, "1"@)]);
        }
    }
    r
}

fn rule_one_prefix(dir: &str, prefix: &str, prepend: bool, key: &str, val: &str) -> (r: Vec<EnvOp>)
    ensures
        ops_view(r@) == (if prefix@.is_prefix_of(dir@) {
            seq![(prepend, key@, val@)]
        } else {
            no_ops()
        }),
{
    let mut r: Vec<EnvOp> = Vec::new();
    proof {
        assert(ops_view(r@) =~= no_ops());
    }
    if starts_with_str(dir, prefix) {
        push_op(&mut r, prepend, key, String::from_str(val));
        proof {
            assert(ops_view(r@) =~= seq![(prepend, key@, val@)]);
        }
    }
    r
}

fn rule_one_exact(dir: &str, name: &str, gate: bool, prepend: bool, key: &str, val: String) -> (r:
    Vec<EnvOp>)
    ensures
        ops_view(r@) == (if dir@ == name@ && gate {
            seq![(prepend, key@, val@)]
        } else {
            no_ops()
        }),
{
    let ghost v = val@;
    let mut r: Vec<EnvOp> = Vec::new();
    proof {
        assert(ops_view(r@) =~= no_ops());
    }
    if str_eq(dir, name) && gate {
        push_op(&mut r, prepend, key, val);
        proof {
            assert(ops_view(r@) =~= seq![(prepend, key@, v)]);
        }
    }
    r
}

fn rule_gtk(dir: &str, dir_path: &str, sharun_dir: &str, probes: &DirProbes) -> (r: Vec<EnvOp>)
    ensures
        ops_view(r@) == (if "gtk-"@.is_prefix_of(dir@) {
            seq![(true, "GTK_PATH"@, dir_path@), (false, "GTK_EXE_PREFIX"@, sharun_dir@), (false, "GTK_DATA_PREFIX"@, sharun_dir@)]
                + (match &probes.gtk_immodules_cache {
                Some(p) => seq![(false, "GTK_IM_MODULE_FILE"@, p@)],
                None => no_ops(),
            })
        } else {
            no_ops()
        }),
{
    let mut r: Vec<EnvOp> = Vec::new();
    proof {
        assert(ops_view(r@) =~= no_ops());
    }
    if starts_with_str(dir, "gtk-") {
        push_op(&mut r, true, "GTK_PATH", String::from_str(dir_path));
        push_op(&mut r, false, "GTK_EXE_PREFIX", String::from_str(sharun_dir));
        push_op(&mut r, false, "GTK_DATA_PREFIX", String::from_str(sharun_dir));
        match &probes.gtk_immodules_cache {
            Some(p) => {
                push_op(&mut r, false, "GTK_IM_MODULE_FILE", p.clone());
                proof {
                    assert(ops_view(r@) =~= seq![(true, "GTK_PATH"@, dir_path@), (false, "GTK_EXE_PREFIX"@, sharun_dir@), (false, "GTK_DATA_PREFIX"@, sharun_dir@), (false, "GTK_IM_MODULE_FILE"@, p@)]);
                    assert(seq![(true, "GTK_PATH"@, dir_path@), (false, "GTK_EXE_PREFIX"@, sharun_dir@), (false, "GTK_DATA_PREFIX"@, sharun_dir@)]
                        + seq![(false, "GTK_IM_MODULE_FILE"@, p@)] =~= ops_view(r@));
                }
            },
            None => {
                proof {
                    assert(ops_view(r@) =~= seq![(true, "GTK_PATH"@, dir_path@), (false, "GTK_EXE_PREFIX"@, sharun_dir@), (false, "GTK_DATA_PREFIX"@, sharun_dir@)]);
                    assert(ops_view(r@) + no_ops() =~= ops_view(r@));
                }
            },
        }
    }
    r
}

fn rule_qt(dir: &str, dir_path: &str, probes: &DirProbes) -> (r: Vec<EnvOp>)
    ensures
        ops_view(r@) == (if "qt"@.is_prefix_of(dir@) && probes.qt_plugins_exists
            && !probes.qt_conf_exists {
            seq![(true, "QT_PLUGIN_PATH"@, dir_path@ + "/plugins"@)]
        } else {
            no_ops()
        }),
{
    let mut r: Vec<EnvOp> = Vec::new();
    proof {
        assert(ops_view(r@) =~= no_ops());
    }
    if starts_with_str(dir, "qt") && probes.qt_plugins_exists && !probes.qt_conf_exists {
        push_op(&mut r, true, "QT_PLUGIN_PATH", concat_str(dir_path, "/plugins"));
        proof {
            assert(ops_view(r@) =~= seq![(true, "QT_PLUGIN_PATH"@, dir_path@ + "/plugins"@)]);
        }
    }
    r
}

fn rule_tcl(dir: &str, dir_path: &str, library_path: &str, probes: &DirProbes) -> (r: Vec<EnvOp>)
    ensures
        ops_view(r@) == (if "tcl"@.is_prefix_of(dir@) && probes.tcl_msgs_exists {
            seq![(true, "TCL_LIBRARY"@, dir_path@)] + (if probes.tk_exists {
                seq![(true, "TK_LIBRARY"@, library_path@ + "/tk"@ + dir@.skip(3))]
            } else {
                no_ops()
            })
        } else {
            no_ops()
        }),
{
    let mut r: Vec<EnvOp> = Vec::new();
    proof {
        assert(ops_view(r@) =~= no_ops());
    }
    if starts_with_str(dir, "tcl") && probes.tcl_msgs_exists {
        push_op(&mut r, true, "TCL_LIBRARY", String::from_str(dir_path));
        if probes.tk_exists {
            proof {
                reveal_strlit("tcl");
                assert("tcl"@.len() == 3);
            }
            let dlen = dir.unicode_len();
            let suffix = dir.substring_char(3, dlen);
            let tk = concat_str(library_path, "/tk");
            let tk = concat_str(tk.as_str(), suffix);
            proof {
                assert(suffix@ =~= dir@.skip(3));
                assert(tk@ =~= library_path@ + "/tk"@ + dir@.skip(3));
            }
            push_op(&mut r, true, "TK_LIBRARY", tk);
            proof {
                assert(ops_view(r@) =~= seq![(true, "TCL_LIBRARY"@, dir_path@)] + seq![(true, "TK_LIBRARY"@, library_path@ + "/tk"@ + dir@.skip(3))]);
            }
        } else {
            proof {
                assert(ops_view(r@) =~= seq![(true, "TCL_LIBRARY"@, dir_path@)] + no_ops());
            }
        }
    }
    r
}

fn rule_gstreamer(dir: &str, dir_path: &str, probes: &DirProbes) -> (r: Vec<EnvOp>)
    ensures
        ops_view(r@) == (if "gstreamer-"@.is_prefix_of(dir@) {
            seq![(true, "GST_PLUGIN_PATH"@, dir_path@), (true, "GST_PLUGIN_SYSTEM_PATH"@, dir_path@), (true, "GST_PLUGIN_SYSTEM_PATH_1_0"@, dir_path@)]
                + (if probes.gst_scanner_exists {
                seq![(false, "GST_PLUGIN_SCANNER"@, dir_path@ + "/gst-plugin-scanner"@)]
            } else {
                no_ops()
            })
        } else {
            no_ops()
        }),
{
    let mut r: Vec<EnvOp> = Vec::new();
    proof {
        assert(ops_view(r@) =~= no_ops());
    }
    if starts_with_str(dir, "gstreamer-") {
        push_op(&mut r, true, "GST_PLUGIN_PATH", String::from_str(dir_path));
        push_op(&mut r, true, "GST_PLUGIN_SYSTEM_PATH", String::from_str(dir_path));
        push_op(&mut r, true, "GST_PLUGIN_SYSTEM_PATH_1_0", String::from_str(dir_path));
        if probes.gst_scanner_exists {
            push_op(&mut r, false, "GST_PLUGIN_SCANNER", concat_str(dir_path, "/gst-plugin-scanner"));
            proof {
                assert(ops_view(r@) =~= seq![(true, "GST_PLUGIN_PATH"@, dir_path@), (true, "GST_PLUGIN_SYSTEM_PATH"@, dir_path@), (true, "GST_PLUGIN_SYSTEM_PATH_1_0"@, dir_path@)]
                    + seq![(false, "GST_PLUGIN_SCANNER"@, dir_path@ + "/gst-plugin-scanner"@)]);
            }
        } else {
            proof {
                assert(ops_view(r@) =~= seq![(true, "GST_PLUGIN_PATH"@, dir_path@), (true, "GST_PLUGIN_SYSTEM_PATH"@, dir_path@), (true, "GST_PLUGIN_SYSTEM_PATH_1_0"@, dir_path@)]
                    + no_ops());
            }
        }
    }
    r
}

fn rule_gdk_pixbuf(dir: &str, probes: &DirProbes) -> (r: Vec<EnvOp>)
    ensures
        ops_view(r@) == (if "gdk-pixbuf-"@.is_prefix_of(dir@) {
            (match &probes.gdk_loaders_dir {
                Some(p) => seq![(false, "GDK_PIXBUF_MODULEDIR"@, p@)],
                None => no_ops(),
            }) + (match &probes.gdk_loaders_cache {
                Some(p) => seq![(false, "GDK_PIXBUF_MODULE_FILE"@, p@)],
                None => no_ops(),
            })
        } else {
            no_ops()
        }),
{
    let mut r: Vec<EnvOp> = Vec::new();
    proof {
        assert(ops_view(r@) =~= no_ops());
    }
    if starts_with_str(dir, "gdk-pixbuf-") {
        match &probes.gdk_loaders_dir {
            Some(p) => {
                push_op(&mut r, false, "GDK_PIXBUF_MODULEDIR", p.clone());
            },
            None => {},
        }
        match &probes.gdk_loaders_cache {
            Some(p) => {
                push_op(&mut r, false, "GDK_PIXBUF_MODULE_FILE", p.clone());
            },
            None => {},
        }
        proof {
            let a = (match &probes.gdk_loaders_dir {
                Some(p) => seq![(false, "GDK_PIXBUF_MODULEDIR"@, p@)],
                None => no_ops(),
            });
            let b = (match &probes.gdk_loaders_cache {
                Some(p) => seq![(false, "GDK_PIXBUF_MODULE_FILE"@, p@)],
                None => no_ops(),
            });
            assert(ops_view(r@) =~= a + b);
        }
    }
    r
}

/// The operations the rule table yields for one child directory, given what
/// the disk said.
#[verifier::rlimit(100)]
pub fn ops_for_dir(
    dir: &str,
    dir_path: &str,
    sharun_dir: &str,
    library_path: &str,
    probes: &DirProbes,
) -> (r: Vec<EnvOp>)
    ensures
        ops_view(r@) == dir_ops_spec(dir@, dir_path@, sharun_dir@, library_path@, *probes),
{
    let mut r = rule_python(dir, sharun_dir);
    let part = rule_one_prefix(dir, "perl", true, "PERLLIB", dir_path);
    append_ops(&mut r, &part);
    let part = rule_one_exact(dir, "gconv", true, true, "GCONV_PATH", String::from_str(dir_path));
    append_ops(&mut r, &part);
    let part = rule_one_exact(
        dir,
        "gio",
        probes.gio_modules_exists,
        false,
        "GIO_MODULE_DIR",
        concat_str(dir_path, "/modules"),
    );
    append_ops(&mut r, &part);
    let part = rule_one_exact(dir, "dri", true, false, "LIBGL_DRIVERS_PATH", String::from_str(
        dir_path,
    ));
    append_ops(&mut r, &part);
    let part = rule_one_prefix(dir, "spa-", false, "SPA_PLUGIN_DIR", dir_path);
    append_ops(&mut r, &part);
    let part = rule_one_prefix(dir, "pipewire-", false, "PIPEWIRE_MODULE_DIR", dir_path);
    append_ops(&mut r, &part);
    let part = rule_gtk(dir, dir_path, sharun_dir, probes);
    append_ops(&mut r, &part);
    let part = rule_qt(dir, dir_path, probes);
    append_ops(&mut r, &part);
    let part = rule_one_prefix(dir, "babl-", false, "BABL_PATH", dir_path);
    append_ops(&mut r, &part);
    let part = rule_one_prefix(dir, "gegl-", false, "GEGL_PATH", dir_path);
    append_ops(&mut r, &part);
    let part = rule_one_exact(
        dir,
        "gimp",
        probes.gimp_two_exists,
        false,
        "GIMP2_PLUGINDIR",
        concat_str(dir_path, "/2.0"),
    );
    append_ops(&mut r, &part);
    let part = rule_one_exact(
        dir,
        "libdecor",
        probes.libdecor_plugins_exists,
        false,
        "LIBDECOR_PLUGIN_DIR",
        concat_str(dir_path, "/plugins-1"),
    );
    append_ops(&mut r, &part);
    let part = rule_tcl(dir, dir_path, library_path, probes);
    append_ops(&mut r, &part);
    let part = rule_gstreamer(dir, dir_path, probes);
    append_ops(&mut r, &part);
    let part = rule_gdk_pixbuf(dir, probes);
    append_ops(&mut r, &part);
    proof {
        assert(ops_view(r@) == dir_ops_spec(dir@, dir_path@, sharun_dir@, library_path@, *probes));
    }
    r
}

/// The first walked entry that is a file of the given name.
pub fn find_file_named(entries: &Vec<WalkEntry>, name: &str) -> (r: Option<String>)
    ensures
        match r {
            Some(p) => exists|i: int| 0 <= i < entries@.len() && (#[trigger] entries@[i]).is_file
                && entries@[i].name@ == name@ && entries@[i].path@ == p@ && (forall|j: int|
                0 <= j < i ==> !((#[trigger] entries@[j]).is_file && entries@[j].name@ == name@)),
            None => forall|i: int| 0 <= i < entries@.len() ==> !((#[trigger] entries@[i]).is_file
                && entries@[i].name@ == name@),
        },
{
    let mut i: usize = 0;
    while i < entries.len()
        invariant
            i <= entries.len(),
            forall|j: int| 0 <= j < i ==> !((#[trigger] entries@[j]).is_file && entries@[j].name@
                == name@),
        decreases entries.len() - i,
    {
        let e = &entries[i];
        if e.is_file && str_eq(e.name.as_str(), name) {
            return Some(e.path.clone());
        }
        i = i + 1;
    }
    None
}

/// The first walked entry that is a directory of the given name.
pub fn find_dir_named(entries: &Vec<WalkEntry>, name: &str) -> (r: Option<String>)
    ensures
        match r {
            Some(p) => exists|i: int| 0 <= i < entries@.len() && (#[trigger] entries@[i]).is_dir
                && entries@[i].name@ == name@ && entries@[i].path@ == p@ && (forall|j: int|
                0 <= j < i ==> !((#[trigger] entries@[j]).is_dir && entries@[j].name@ == name@)),
            None => forall|i: int| 0 <= i < entries@.len() ==> !((#[trigger] entries@[i]).is_dir
                && entries@[i].name@ == name@),
        },
{
    let mut i: usize = 0;
    while i < entries.len()
        invariant
            i <= entries.len(),
            forall|j: int| 0 <= j < i ==> !((#[trigger] entries@[j]).is_dir && entries@[j].name@
                == name@),
        decreases entries.len() - i,
    {
        let e = &entries[i];
        if e.is_dir && str_eq(e.name.as_str(), name) {
            return Some(e.path.clone());
        }
        i = i + 1;
    }
    None
}

/// Probe the disk for one child directory and fold its rules into the
/// environment.  The probes depend on the disk; the operations applied are
/// exactly what the rule table yields for what the disk said.
pub fn synthesize_for_dir(
    env: &mut EnvMap,
    dir: &str,
    library_path: &str,
    sharun_dir: &str,
    bin_dir: &str,
) -> (r: Vec<EnvOp>)
    requires
        env_wf(old(env)@),
    ensures
        env_wf(final(env)@),
        final(env)@ == apply_ops_spec(old(env)@, ops_view(r@)),
        exists|p: DirProbes| ops_view(r@) == dir_ops_spec(
            dir@,
            library_path@ + "/"@ + dir@,
            sharun_dir@,
            library_path@,
            p,
        ),
{
    let joined = concat_str(library_path, "/");
    let dir_path = concat_str(joined.as_str(), dir);
    proof {
        assert(dir_path@ == library_path@ + "/"@ + dir@);
    }

    let gio_modules = concat_str(dir_path.as_str(), "/modules");
    let qt_plugins = concat_str(dir_path.as_str(), "/plugins");
    let qt_conf = concat_str(bin_dir, "/qt.conf");
    let gimp_two = concat_str(dir_path.as_str(), "/2.0");
    let libdecor_plugins = concat_str(dir_path.as_str(), "/plugins-1");
    let tcl_msgs = concat_str(dir_path.as_str(), "/msgs");
    let gst_scanner = concat_str(dir_path.as_str(), "/gst-plugin-scanner");

    let gtk_immodules_cache = if starts_with_str(dir, "gtk-") {
        let entries = walk_entries(dir_path.as_str());
        find_file_named(&entries, "immodules.cache")
    } else {
        None
    };
    let (gdk_loaders_dir, gdk_loaders_cache) = if starts_with_str(dir, "gdk-pixbuf-") {
        let entries = walk_entries(dir_path.as_str());
        (find_dir_named(&entries, "loaders"), find_file_named(&entries, "loaders.cache"))
    } else {
        (None, None)
    };
    let tk_exists = if starts_with_str(dir, "tcl") {
        proof {
            reveal_strlit("tcl");
            assert("tcl"@.len() == 3);
        }
        let dlen = dir.unicode_len();
        let suffix = dir.substring_char(3, dlen);
        let tk = concat_str(library_path, "/tk");
        let tk = concat_str(tk.as_str(), suffix);
        path_exists(tk.as_str())
    } else {
        false
    };

    let probes = DirProbes {
        gio_modules_exists: path_exists(gio_modules.as_str()),
        gtk_immodules_cache,
        qt_plugins_exists: path_exists(qt_plugins.as_str()),
        qt_conf_exists: path_exists(qt_conf.as_str()),
        gimp_two_exists: path_exists(gimp_two.as_str()),
        libdecor_plugins_exists: path_exists(libdecor_plugins.as_str()),
        tcl_msgs_exists: path_exists(tcl_msgs.as_str()),
        tk_exists,
        gst_scanner_exists: path_exists(gst_scanner.as_str()),
        gdk_loaders_dir,
        gdk_loaders_cache,
    };

    let ops = ops_for_dir(dir, dir_path.as_str(), sharun_dir, library_path, &probes);
    apply_ops(env, &ops);
    ops
}

/// Fold the rules of every child directory named by the cache text into the
/// environment, in the order of first occurrence.  The operations applied are
/// exactly what the rule table yields for those child names, each under
/// whatever its disk probes said.
pub fn synthesize_from_cache(
    env: &mut EnvMap,
    cache_content: &str,
    library_path: &str,
    sharun_dir: &str,
    bin_dir: &str,
) -> (r: Vec<EnvOp>)
    requires
        env_wf(old(env)@),
    ensures
        env_wf(final(env)@),
        final(env)@ == apply_ops_spec(old(env)@, ops_view(r@)),
        exists|ps: Seq<DirProbes>| ps.len() == crate::cache::child_names_spec(cache_content@).len()
            && ops_view(r@) == dirs_ops_spec(
            crate::cache::child_names_spec(cache_content@),
            sharun_dir@,
            library_path@,
            ps,
        ),
{
    let names = crate::cache::cache_child_names(cache_content);
    let ghost ns = names.deep_view();
    let ghost s0 = env@;
    let mut all_ops: Vec<EnvOp> = Vec::new();
    let ghost mut ps = Seq::<DirProbes>::empty();
    let mut i: usize = 0;
    proof {
        assert(ops_view(all_ops@) =~= no_ops());
        assert(apply_ops_spec(s0, no_ops()) == s0);
        assert(ns.take(0) =~= Seq::<Seq<char>>::empty());
    }
    while i < names.len()
        invariant
            i <= names.len(),
            ns == names.deep_view(),
            names@.len() == ns.len(),
            ps.len() == i,
            env_wf(env@),
            env@ == apply_ops_spec(s0, ops_view(all_ops@)),
            ops_view(all_ops@) == dirs_ops_spec(ns.take(i as int), sharun_dir@, library_path@, ps),
        decreases names.len() - i,
    {
        proof {
            assert(ns[i as int] == names@[i as int]@);
        }
        let ops = synthesize_for_dir(env, names[i].as_str(), library_path, sharun_dir, bin_dir);
        let ghost before = ops_view(all_ops@);
        append_ops(&mut all_ops, &ops);
        proof {
            lemma_apply_ops_concat(s0, before, ops_view(ops@));
            let p = choose|p: DirProbes| ops_view(ops@) == dir_ops_spec(
                ns[i as int],
                library_path@ + "/"@ + ns[i as int],
                sharun_dir@,
                library_path@,
                p,
            );
            let ghost prev = ps;
            ps = prev.push(p);
            assert(ps.drop_last() =~= prev);
            assert(ps.last() == p);
            assert(ns.take(i + 1).drop_last() =~= ns.take(i as int));
            assert(ns.take(i + 1).last() == ns[i as int]);
            assert(ops_view(all_ops@) =~= dirs_ops_spec(
                ns.take(i + 1),
                sharun_dir@,
                library_path@,
                ps,
            ));
        }
        i = i + 1;
    }
    proof {
        assert(ns.take(names@.len() as int) =~= ns);
    }
    all_ops
}

/// The `XDG_DATA_DIRS` prelude of the `share/` pass: the host defaults and
/// the bundle's own share directory, the latter ending up first.
pub open spec fn xdg_ops_spec(share_dir: Seq<char>) -> Seq<(bool, Seq<char>, Seq<char>)> {
    seq![(true, "XDG_DATA_DIRS"@, "/usr/local/share"@), (true, "XDG_DATA_DIRS"@, "/usr/share"@), (true, "XDG_DATA_DIRS"@, share_dir)]
}

pub fn xdg_ops(share_dir: &str) -> (r: Vec<EnvOp>)
    ensures
        ops_view(r@) == xdg_ops_spec(share_dir@),
{
    let mut r: Vec<EnvOp> = Vec::new();
    push_op(&mut r, true, "XDG_DATA_DIRS", String::from_str("/usr/local/share"));
    push_op(&mut r, true, "XDG_DATA_DIRS", String::from_str("/usr/share"));
    push_op(&mut r, true, "XDG_DATA_DIRS", String::from_str(share_dir));
    proof {
        assert(ops_view(r@) =~= xdg_ops_spec(share_dir@));
    }
    r
}

/// The rules of the `share/` pass for one entry, gated on the nested path
/// that the rule expects (`probe` says whether it exists).
pub open spec fn share_entry_ops_spec(
    name: Seq<char>,
    entry_path: Seq<char>,
    probe: bool,
) -> Seq<(bool, Seq<char>, Seq<char>)> {
    if name == "glvnd"@ && probe {
        seq![(true, "__EGL_VENDOR_LIBRARY_DIRS"@, "/usr/share/glvnd/egl_vendor.d"@), (true, "__EGL_VENDOR_LIBRARY_DIRS"@, entry_path + "/egl_vendor.d"@)]
    } else if name == "vulkan"@ && probe {
        seq![(true, "VK_DRIVER_FILES"@, "/usr/share/vulkan/icd.d"@), (true, "VK_DRIVER_FILES"@, entry_path + "/icd.d"@)]
    } else if name == "X11"@ && probe {
        seq![(false, "XKB_CONFIG_ROOT"@, entry_path + "/xkb"@)]
    } else if name == "glib-2.0"@ && probe {
        seq![(true, "GSETTINGS_SCHEMA_DIR"@, "/usr/share/glib-2.0/schemas"@), (true, "GSETTINGS_SCHEMA_DIR"@, entry_path + "/schemas"@)]
    } else if name == "gimp"@ && probe {
        seq![(false, "GIMP2_DATADIR"@, entry_path + "/2.0"@)]
    } else if name == "terminfo"@ {
        seq![(false, "TERMINFO"@, entry_path)]
    } else if name == "file"@ && probe {
        seq![(false, "MAGIC"@, entry_path + "/misc/magic.mgc"@)]
    } else {
        no_ops()
    }
}

pub fn share_entry_ops(name: &str, entry_path: &str, probe: bool) -> (r: Vec<EnvOp>)
    ensures
        ops_view(r@) == share_entry_ops_spec(name@, entry_path@, probe),
{
    let mut r: Vec<EnvOp> = Vec::new();
    proof {
        assert(ops_view(r@) =~= no_ops());
    }
    if str_eq(name, "glvnd") && probe {
        push_op(&mut r, true, "__EGL_VENDOR_LIBRARY_DIRS", String::from_str(
            "/usr/share/glvnd/egl_vendor.d",
        ));
        push_op(&mut r, true, "__EGL_VENDOR_LIBRARY_DIRS", concat_str(entry_path, "/egl_vendor.d"));
    } else if str_eq(name, "vulkan") && probe {
        push_op(&mut r, true, "VK_DRIVER_FILES", String::from_str("/usr/share/vulkan/icd.d"));
        push_op(&mut r, true, "VK_DRIVER_FILES", concat_str(entry_path, "/icd.d"));
    } else if str_eq(name, "X11") && probe {
        push_op(&mut r, false, "XKB_CONFIG_ROOT", concat_str(entry_path, "/xkb"));
    } else if str_eq(name, "glib-2.0") && probe {
        push_op(&mut r, true, "GSETTINGS_SCHEMA_DIR", String::from_str(
            "/usr/share/glib-2.0/schemas",
        ));
        push_op(&mut r, true, "GSETTINGS_SCHEMA_DIR", concat_str(entry_path, "/schemas"));
    } else if str_eq(name, "gimp") && probe {
        push_op(&mut r, false, "GIMP2_DATADIR", concat_str(entry_path, "/2.0"));
    } else if str_eq(name, "terminfo") {
        push_op(&mut r, false, "TERMINFO", String::from_str(entry_path));
    } else if str_eq(name, "file") && probe {
        push_op(&mut r, false, "MAGIC", concat_str(entry_path, "/misc/magic.mgc"));
    }
    proof {
        assert(ops_view(r@) =~= share_entry_ops_spec(name@, entry_path@, probe));
    }
    r
}

/// The rules of the `etc/` pass for one entry.
pub open spec fn etc_entry_ops_spec(
    name: Seq<char>,
    entry_path: Seq<char>,
    probe: bool,
) -> Seq<(bool, Seq<char>, Seq<char>)> {
    if name == "fonts"@ && probe {
        seq![(false, "FONTCONFIG_FILE"@, entry_path + "/fonts.conf"@)]
    } else if name == "gimp"@ && probe {
        seq![(false, "GIMP2_SYSCONFDIR"@, entry_path + "/2.0"@)]
    } else {
        no_ops()
    }
}

pub fn etc_entry_ops(name: &str, entry_path: &str, probe: bool) -> (r: Vec<EnvOp>)
    ensures
        ops_view(r@) == etc_entry_ops_spec(name@, entry_path@, probe),
{
    let mut r: Vec<EnvOp> = Vec::new();
    proof {
        assert(ops_view(r@) =~= no_ops());
    }
    if str_eq(name, "fonts") && probe {
        push_op(&mut r, false, "FONTCONFIG_FILE", concat_str(entry_path, "/fonts.conf"));
    } else if str_eq(name, "gimp") && probe {
        push_op(&mut r, false, "GIMP2_SYSCONFDIR", concat_str(entry_path, "/2.0"));
    }
    proof {
        assert(ops_view(r@) =~= etc_entry_ops_spec(name@, entry_path@, probe));
    }
    r
}

/// The operations of the `share/` pass entries: each directory entry's rule
/// under its own gate answer, in entry order; other entries yield nothing.
pub open spec fn share_ops_of_entries(
    es: Seq<WalkEntry>,
    gates: Seq<bool>,
) -> Seq<(bool, Seq<char>, Seq<char>)>
    decreases es.len(),
{
    if es.len() == 0 {
        no_ops()
    } else {
        share_ops_of_entries(es.drop_last(), gates.drop_last()) + (if es.last().is_dir {
            share_entry_ops_spec(es.last().name@, es.last().path@, gates.last())
        } else {
            no_ops()
        })
    }
}

/// The operations of the `etc/` pass entries, in entry order.
pub open spec fn etc_ops_of_entries(
    es: Seq<WalkEntry>,
    gates: Seq<bool>,
) -> Seq<(bool, Seq<char>, Seq<char>)>
    decreases es.len(),
{
    if es.len() == 0 {
        no_ops()
    } else {
        etc_ops_of_entries(es.drop_last(), gates.drop_last()) + (if es.last().is_dir {
            etc_entry_ops_spec(es.last().name@, es.last().path@, gates.last())
        } else {
            no_ops()
        })
    }
}

/// The whole `share/` pass as data: nothing when the directory is absent,
/// else the `XDG_DATA_DIRS` prelude followed by the entries' rules.
pub open spec fn share_pass_ops(
    share_dir: Seq<char>,
    share_exists: bool,
    es: Seq<WalkEntry>,
    gates: Seq<bool>,
) -> Seq<(bool, Seq<char>, Seq<char>)> {
    if share_exists {
        xdg_ops_spec(share_dir) + share_ops_of_entries(es, gates)
    } else {
        no_ops()
    }
}

/// The `share/` pass: the `XDG_DATA_DIRS` prelude, then each child
/// directory's rule, gated on the nested path it expects.
pub fn synthesize_share(env: &mut EnvMap, sharun_dir: &str) -> (r: Vec<EnvOp>)
    requires
        env_wf(old(env)@),
    ensures
        env_wf(final(env)@),
        final(env)@ == apply_ops_spec(old(env)@, ops_view(r@)),
        exists|share_exists: bool, es: Seq<WalkEntry>, gates: Seq<bool>| gates.len() == es.len()
            && ops_view(r@) == #[trigger] share_pass_ops(
            sharun_dir@ + "/share"@,
            share_exists,
            es,
            gates,
        ),
{
    let share_dir = concat_str(sharun_dir, "/share");
    let ghost sv = sharun_dir@ + "/share"@;
    let ghost s0 = env@;
    if !path_exists(share_dir.as_str()) {
        let all_ops: Vec<EnvOp> = Vec::new();
        proof {
            assert(ops_view(all_ops@) =~= no_ops());
            assert(apply_ops_spec(s0, no_ops()) == s0);
            assert(ops_view(all_ops@) == share_pass_ops(
                sv,
                false,
                Seq::<WalkEntry>::empty(),
                Seq::<bool>::empty(),
            ));
        }
        return all_ops;
    }
    let prelude = xdg_ops(share_dir.as_str());
    apply_ops(env, &prelude);
    let mut all_ops = prelude;
    let entries = list_dir(share_dir.as_str());
    let ghost mut gates = Seq::<bool>::empty();
    let mut i: usize = 0;
    proof {
        assert(share_ops_of_entries(entries@.take(0), gates) =~= no_ops());
        assert(ops_view(all_ops@) =~= xdg_ops_spec(sv) + share_ops_of_entries(
            entries@.take(0),
            gates,
        ));
    }
    while i < entries.len()
        invariant
            i <= entries.len(),
            gates.len() == i,
            env_wf(env@),
            env@ == apply_ops_spec(s0, ops_view(all_ops@)),
            ops_view(all_ops@) == xdg_ops_spec(sv) + share_ops_of_entries(
                entries@.take(i as int),
                gates,
            ),
        decreases entries.len() - i,
    {
        let e = &entries[i];
        let ghost prev_gates = gates;
        proof {
            assert(entries@.take(i + 1).drop_last() =~= entries@.take(i as int));
            assert(entries@.take(i + 1).last() == entries@[i as int]);
        }
        if e.is_dir {
            let gate = if str_eq(e.name.as_str(), "glvnd") {
                concat_str(e.path.as_str(), "/egl_vendor.d")
            } else if str_eq(e.name.as_str(), "vulkan") {
                concat_str(e.path.as_str(), "/icd.d")
            } else if str_eq(e.name.as_str(), "X11") {
                concat_str(e.path.as_str(), "/xkb")
            } else if str_eq(e.name.as_str(), "glib-2.0") {
                concat_str(e.path.as_str(), "/schemas")
            } else if str_eq(e.name.as_str(), "gimp") {
                concat_str(e.path.as_str(), "/2.0")
            } else if str_eq(e.name.as_str(), "file") {
                concat_str(e.path.as_str(), "/misc/magic.mgc")
            } else {
                String::new()
            };
            let probe = if gate.as_str().unicode_len() > 0 {
                path_exists(gate.as_str())
            } else {
                false
            };
            let ops = share_entry_ops(e.name.as_str(), e.path.as_str(), probe);
            apply_ops(env, &ops);
            let ghost before = ops_view(all_ops@);
            append_ops(&mut all_ops, &ops);
            proof {
                lemma_apply_ops_concat(s0, before, ops_view(ops@));
                gates = prev_gates.push(probe);
                assert(gates.drop_last() =~= prev_gates);
                assert(ops_view(all_ops@) =~= xdg_ops_spec(sv) + share_ops_of_entries(
                    entries@.take(i + 1),
                    gates,
                ));
            }
        } else {
            proof {
                gates = prev_gates.push(false);
                assert(gates.drop_last() =~= prev_gates);
                assert(share_ops_of_entries(entries@.take(i + 1), gates)
                    =~= share_ops_of_entries(entries@.take(i as int), prev_gates) + no_ops());
                assert(ops_view(all_ops@) =~= xdg_ops_spec(sv) + share_ops_of_entries(
                    entries@.take(i + 1),
                    gates,
                ));
            }
        }
        i = i + 1;
    }
    proof {
        assert(entries@.take(entries@.len() as int) =~= entries@);
        assert(ops_view(all_ops@) == share_pass_ops(sv, true, entries@, gates));
    }
    all_ops
}

/// The `etc/` pass over the bundle's configuration tree./// The `etc/` pass over the bundle's configuration tree.
pub fn synthesize_etc(env: &mut EnvMap, sharun_dir: &str) -> (r: Vec<EnvOp>)
    requires
        env_wf(old(env)@),
    ensures
        env_wf(final(env)@),
        final(env)@ == apply_ops_spec(old(env)@, ops_view(r@)),
        exists|es: Seq<WalkEntry>, gates: Seq<bool>| gates.len() == es.len() && ops_view(r@)
            == #[trigger] etc_ops_of_entries(es, gates),
{
    let etc_dir = concat_str(sharun_dir, "/etc");
    let ghost s0 = env@;
    let mut all_ops: Vec<EnvOp> = Vec::new();
    proof {
        assert(ops_view(all_ops@) =~= no_ops());
        assert(apply_ops_spec(s0, no_ops()) == s0);
        assert(ops_view(all_ops@) == etc_ops_of_entries(
            Seq::<WalkEntry>::empty(),
            Seq::<bool>::empty(),
        ));
    }
    if !path_exists(etc_dir.as_str()) {
        return all_ops;
    }
    let entries = list_dir(etc_dir.as_str());
    let ghost mut gates = Seq::<bool>::empty();
    let mut i: usize = 0;
    proof {
        assert(ops_view(all_ops@) =~= etc_ops_of_entries(entries@.take(0), gates));
    }
    while i < entries.len()
        invariant
            i <= entries.len(),
            gates.len() == i,
            env_wf(env@),
            env@ == apply_ops_spec(s0, ops_view(all_ops@)),
            ops_view(all_ops@) == etc_ops_of_entries(entries@.take(i as int), gates),
        decreases entries.len() - i,
    {
        let e = &entries[i];
        let ghost prev_gates = gates;
        proof {
            assert(entries@.take(i + 1).drop_last() =~= entries@.take(i as int));
            assert(entries@.take(i + 1).last() == entries@[i as int]);
        }
        if e.is_dir {
            let gate = if str_eq(e.name.as_str(), "fonts") {
                concat_str(e.path.as_str(), "/fonts.conf")
            } else if str_eq(e.name.as_str(), "gimp") {
                concat_str(e.path.as_str(), "/2.0")
            } else {
                String::new()
            };
            let probe = if gate.as_str().unicode_len() > 0 {
                path_exists(gate.as_str())
            } else {
                false
            };
            let ops = etc_entry_ops(e.name.as_str(), e.path.as_str(), probe);
            apply_ops(env, &ops);
            let ghost before = ops_view(all_ops@);
            append_ops(&mut all_ops, &ops);
            proof {
                lemma_apply_ops_concat(s0, before, ops_view(ops@));
                gates = prev_gates.push(probe);
                assert(gates.drop_last() =~= prev_gates);
                assert(ops_view(all_ops@) =~= etc_ops_of_entries(entries@.take(i + 1), gates));
            }
        } else {
            proof {
                gates = prev_gates.push(false);
                assert(gates.drop_last() =~= prev_gates);
                assert(etc_ops_of_entries(entries@.take(i + 1), gates) =~= etc_ops_of_entries(
                    entries@.take(i as int),
                    prev_gates,
                ) + no_ops());
                assert(ops_view(all_ops@) =~= etc_ops_of_entries(entries@.take(i + 1), gates));
            }
        }
        i = i + 1;
    }
    proof {
        assert(entries@.take(entries@.len() as int) =~= entries@);
    }
    all_ops
}

} // verus!
