//! The system that keeps the template of a frame.

use vstd::prelude::*;

verus! {

/// The template that counts after a run of samples: the last one that
/// arrived, or `current` where none did.
pub open spec fn latest_template(current: Seq<char>, samples: Seq<Option<String>>) -> Seq<char>
    decreases samples.len(),
{
    if samples.len() == 0 {
        current
    } else {
        match samples.last() {
            Some(template) => template@,
            None => latest_template(current, samples.drop_last()),
        }
    }
}

/// The system that keeps the most recent template.
#[derive(Debug)]
pub struct TVSystem {
    pub template: String,
}

impl Default for TVSystem {
    fn default() -> (system: TVSystem)
        ensures
            system.template@ == Seq::<char>::empty(),
    {
        TVSystem { template: String::new() }
    }
}

impl TVSystem {
    /// The name under which the system is registered.
    pub fn identifier() -> (name: String)
        ensures
            name@ == "TemplateVisualizerSystem"@,
    {
        String::from_str("TemplateVisualizerSystem")
    }

    /// Takes what each visible entity holds as its template, in order. The
    /// last template that is there replaces the one kept; where none is, the
    /// one kept stays.
    pub fn execute(&mut self, samples: &Vec<Option<String>>)
        ensures
            final(self).template@ == latest_template(old(self).template@, samples@),
    {
        let mut at: usize = 0;
        assert(samples@.take(0) =~= Seq::<Option<String>>::empty());
        while at < samples.len()
            invariant
                at <= samples@.len(),
                self.template@ == latest_template(old(self).template@, samples@.take(at as int)),
            decreases samples@.len() - at,
        {
            proof {
                let upto = samples@.take(at as int + 1);
                assert(upto.last() == samples@[at as int]);
                assert(upto.drop_last() =~= samples@.take(at as int));
            }
            match &samples[at] {
                Some(template) => {
                    self.template = template.clone();
                },
                None => {},
            }
            at = at + 1;
        }
        assert(samples@.take(at as int) =~= samples@);
    }
}

} // verus!
